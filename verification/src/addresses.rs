//! Register addresses and named values of the controller.

use vstd::prelude::*;

verus! {

pub const MODE_REGISTER: u8 = 0x00;

pub const FRAME: u8 = 0x01;

pub const AUTOPLAY1: u8 = 0x02;

pub const AUTOPLAY2: u8 = 0x03;

pub const BLINK: u8 = 0x05;

pub const AUDIOSYNC: u8 = 0x06;

pub const BREATH1: u8 = 0x08;

pub const BREATH2: u8 = 0x09;

pub const SHUTDOWN: u8 = 0x0A;

pub const GAIN: u8 = 0x0B;

pub const ADC: u8 = 0x0C;

/// Bank that holds the configuration registers.
pub const CONFIG_BANK: u8 = 0x0B;

/// Register that selects the bank all later accesses go to.
pub const BANK_ADDRESS: u8 = 0xFD;

pub const PICTURE_MODE: u8 = 0x00;

pub const AUTOPLAY_MODE: u8 = 0x08;

pub const AUDIOPLAY_MODE: u8 = 0x18;

/// First register of a frame's enable plane.
pub const ENABLE_OFFSET: u8 = 0x00;

/// First register of a frame's blink plane.
pub const BLINK_OFFSET: u8 = 0x12;

/// First register of a frame's color plane.
pub const COLOR_OFFSET: u8 = 0x24;

} // verus!
