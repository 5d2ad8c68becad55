//! The function units that come with the engine.

pub mod add;
pub mod constant;
pub mod full_adder;
pub mod halt;
pub mod mux;
pub mod register;
pub mod unit;
pub mod wire;

pub use add::{Add, ADD_A_IN_ID, ADD_B_IN_ID, ADD_OUT_ID, ADD_UNDRIVEN};
pub use constant::{Constant, CONSTANT_OUT_ID};
pub use full_adder::{
    full_add, FullAdd, FULL_ADD_A_IN_ID, FULL_ADD_B_IN_ID, FULL_ADD_OUT_ID, FULL_ADD_SUB_IN_ID,
    FULL_ADD_UNDRIVEN,
};
pub use halt::{Halt, HALT_IN_ID, HALT_REACHED};
pub use mux::{
    mux_input_name, Mux, MUX_OUT_ID, MUX_OUT_OF_RANGE, MUX_SELECT_ID, MUX_UNDRIVEN,
};
pub use register::{Register, REGISTER_OUT_ID, REGISTER_R_IN_ID};
pub use unit::Unit;
pub use wire::{Wire, WIRE_IN_ID};
