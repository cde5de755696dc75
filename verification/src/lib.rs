//! Driver for the IS31FL3731 LED-matrix controller, a chip addressed over a
//! two-wire serial bus.
//!
//! [`IS31FL3731`] is a handle on one chip. Its operations are built from
//! block writes on a [`bus::Bus`], and each says in its contract what it
//! puts on the bus, as a sequence of bus events from [`protocol`]. The
//! wiring of a device model is a [`PixelMap`]; [`devices`] holds the models
//! that come preconfigured. [`chip`] is a model of the chip's registers that
//! the laws about what a trace leaves in them are stated over.

pub mod addresses;
pub mod bus;
pub mod chip;
pub mod devices;
pub mod driver;
pub mod protocol;

pub use driver::{Error, PixelMap, IS31FL3731};
