//! A bit-banged single-wire bus master.
//!
//! The library computes, for each bus operation, the exact sequence of pin
//! actions and delays that the protocol prescribes, tracks the pin's mode while
//! those actions are carried out, and turns the sampled line levels back into
//! a presence flag or response bytes. Driving a real pin and blocking for the
//! delays is left to the caller.

pub mod bits;
pub mod bus;
pub mod master;

pub use bits::pack_samples;
pub use bus::{
    read_sequence, reset_sequence, write_sequence, BusOp, PinMode, PRESENCE_WAIT_US,
    READ_INIT_LOW_US, READ_SAMPLE_WAIT_US, RESET_LOW_US, RESET_TAIL_US, SLOT_US,
    WRITE_ONE_LOW_US, WRITE_ZERO_LOW_US,
};
pub use master::OneWire;
