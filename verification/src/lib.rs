//! A small arcade game core on fixed-point numbers: a player ball avoids
//! bouncing enemy balls and collects stars.
//!
//! Every quantity is an integer. Positions and sizes are counted in
//! thousandths of a pixel, direction components in millionths, time in
//! nanoseconds and rates in thousandths of a hertz, so that each rule of
//! the game is an exact statement about integers.

pub mod enemy;
pub mod events;
pub mod field;
pub mod framerate;
pub mod game;
pub mod motion;
pub mod player;
pub mod random;
pub mod score;
pub mod star;
pub mod timer;
pub mod vec2;
