//! A verified Advent of Code 2019 runner.
//!
//! The heart of the crate is `intcode`, a small stored-program virtual
//! machine working on a flat array of signed 64-bit integers, with modal
//! parameter addressing and blocking input/output channels.  Its behaviour
//! is pinned down by a mathematical step function (`intcode::spec_step`),
//! and the executable machine is proved to follow it exactly.
//!
//! The puzzle solvers of days one to seven are built on top of it, each
//! with a contract describing the value it computes.

pub mod days;
pub mod intcode;
pub mod laws;
pub mod solves;
pub mod text;
pub mod y2019;
pub mod year;
