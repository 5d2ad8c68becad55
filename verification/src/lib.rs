//! A cycle-accurate evaluation engine for networks of digital function units.
//!
//! A circuit is a list of components, each naming the outputs of other
//! components as its inputs. The engine orders the components so that every
//! combinatorial unit is evaluated after the units it reads, rejects circuits
//! with a feedback loop that no register breaks, and then runs clock cycles:
//! combinatorial values settle first, registers latch afterwards.

pub mod component;
pub mod components;
pub mod error;
pub mod graph;
pub mod gui;
pub mod label;
pub mod laws;
pub mod model;
pub mod netlist;
pub mod plan;
pub mod ports;
pub mod signal;
pub mod simulator;
pub mod state;
pub mod store;
pub mod text;
pub mod wiring;
