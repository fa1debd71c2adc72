//! Course generation for an endless surf-and-bunny-hop run: a seeded random
//! stream, the blueprint of rooms and segments, the square bunny-hop platform
//! plans and their spacing checks, the surf strip triangulation, and the small
//! state machines that drive restarts and course extension.

pub mod bhop;
pub mod course;
pub mod director;
pub mod ground;
pub mod paint;
pub mod rng;
pub mod seed;
pub mod spacing;
pub mod strip;
pub mod surf;
