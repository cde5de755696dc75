//! The driver: a handle on one chip, and the operations built from block
//! writes to it.

use crate::addresses::{
    AUDIOSYNC, BANK_ADDRESS, BLINK_OFFSET, COLOR_OFFSET, CONFIG_BANK, ENABLE_OFFSET, FRAME,
    MODE_REGISTER, PICTURE_MODE, SHUTDOWN,
};
use crate::bus::{Bus, BusEvent};
use crate::protocol::{
    audio_sync_trace, bank_select, blink_writes, color_rows, completed, fill_trace, frame_trace,
    frames_init_trace, interrupted, lemma_completed_in_turn, lemma_interrupted_in_first,
    lemma_interrupted_in_rest, lemma_interrupted_frames, lemma_interrupted_run,
    lemma_refused_at_once, lemma_step, mode_trace, outcome, pixel_trace, plane_row_trace,
    register_run,
    register_write, reset_trace, row_bytes, setup_epilogue, setup_prologue, setup_trace,
    sleep_trace,
};
use vstd::prelude::*;

verus! {

/// The wiring of one device model: where in a frame's color plane the LED at
/// a grid position lives.
pub trait PixelMap {
    /// Whether the wiring has a register offset for `(x, y)`: whether it
    /// can be computed within a byte, or found in the table of the device.
    spec fn covers(&self, x: u8, y: u8) -> bool;

    /// The register offset of `(x, y)` within a color plane.
    spec fn offset(&self, x: u8, y: u8) -> u8;

    /// Computes the register offset of `(x, y)`.
    fn calc_pixel(&self, x: u8, y: u8) -> (offset: u8)
        requires
            self.covers(x, y),
        ensures
            offset == self.offset(x, y),
    ;
}

/// Whether `map` gives every position of a grid of `width` by `height` a
/// register of its own among the 144 of a color plane.
pub open spec fn faithful<M: PixelMap>(map: &M, width: u8, height: u8) -> bool {
    &&& forall|x: u8, y: u8|
        x < width && y < height ==> #[trigger] map.covers(x, y) && map.offset(x, y) <= 143
    &&& forall|x1: u8, y1: u8, x2: u8, y2: u8|
        x1 < width && y1 < height && x2 < width && y2 < height && #[trigger] map.offset(x1, y1)
            == #[trigger] map.offset(x2, y2) ==> x1 == x2 && y1 == y2
}

/// What an operation of the driver can fail with.
#[derive(Clone, Copy, Debug)]
pub enum Error<I2cError> {
    /// A block write failed; the error of the bus is passed on as it came.
    I2cError(I2cError),
    /// A coordinate or a frame index was out of range; holds the value.
    InvalidLocation(u8),
    /// A frame index was out of range. No operation of the driver returns
    /// it: [`IS31FL3731::frame`] reports [`Error::InvalidLocation`].
    InvalidFrame(u8),
}

impl<E> From<E> for Error<E> {
    /// Wraps the error of a bus as [`Error::I2cError`].
    fn from(error: E) -> (wrapped: Self) {
        Error::I2cError(error)
    }
}

impl<E> vstd::std_specs::convert::FromSpecImpl<E> for Error<E> {
    open spec fn obeys_from_spec() -> bool {
        true
    }

    open spec fn from_spec(error: E) -> Self {
        Error::I2cError(error)
    }
}

/// A handle on one IS31FL3731.
pub struct IS31FL3731<I2C, M> {
    /// The bus the chip is on.
    pub i2c: I2C,
    /// The 7-bit address of the chip on the bus, `0x74` on most devices.
    pub address: u8,
    /// Width of the LED matrix.
    pub width: u8,
    /// Height of the LED matrix.
    pub height: u8,
    /// The wiring that turns a grid position into a register offset.
    pub calc_pixel: M,
    /// The frame that [`pixel`](IS31FL3731::pixel) writes to.
    pub frame: u8,
}

/// How an operation that first checks its input and then puts `plan` on the
/// bus may end once the check has passed: as [`outcome`] says, the error of
/// the bus wrapped in [`Error::I2cError`].
pub open spec fn checked_outcome<E>(
    res: Result<(), Error<E>>,
    before: Seq<BusEvent>,
    after: Seq<BusEvent>,
    plan: Seq<BusEvent>,
) -> bool {
    match res {
        Ok(_) => completed(before, after, plan),
        Err(Error::I2cError(_)) => interrupted(before, after, plan),
        Err(_) => false,
    }
}

impl<I2C: Bus, M: PixelMap> IS31FL3731<I2C, M> {
    /// Whether `other` has the same address, dimensions, wiring and active
    /// frame as this handle.
    pub open spec fn same_settings(&self, other: &Self) -> bool {
        &&& self.address == other.address
        &&& self.width == other.width
        &&& self.height == other.height
        &&& self.calc_pixel == other.calc_pixel
        &&& self.frame == other.frame
    }

    /// Whether this is a handle as a device profile makes it: on `i2c`, with
    /// the given address and dimensions, and frame 0 active.
    pub open spec fn fresh(&self, i2c: I2C, address: u8, width: u8, height: u8) -> bool {
        &&& self.i2c == i2c
        &&& self.address == address
        &&& self.width == width
        &&& self.height == height
        &&& self.frame == 0
    }

    /// The active frame is one the frame register accepts.
    pub open spec fn wf(&self) -> bool {
        self.frame <= 8
    }

    /// Whether the wiring has an offset for `(x, y)` and the register at that
    /// offset into a color plane has an address.
    pub open spec fn addressable(&self, x: u8, y: u8) -> bool {
        &&& self.calc_pixel.covers(x, y)
        &&& COLOR_OFFSET + self.calc_pixel.offset(x, y) <= u8::MAX
    }

    /// Changes the bus address that later operations talk to. The chip
    /// itself is not told.
    pub fn set_address(&mut self, address: u8)
        ensures
            final(self).address == address,
            final(self).width == old(self).width,
            final(self).height == old(self).height,
            final(self).calc_pixel == old(self).calc_pixel,
            final(self).frame == old(self).frame,
            final(self).i2c == old(self).i2c,
    {
        self.address = address;
    }

    /// Makes `bank` the bank that later register accesses go to.
    pub fn bank(&mut self, bank: u8) -> (res: Result<(), I2C::Error>)
        ensures
            final(self).same_settings(old(self)),
            outcome(
                res,
                old(self).i2c.trace(),
                final(self).i2c.trace(),
                bank_select(old(self).address, bank),
            ),
    {
        let buf: [u8; 2] = [BANK_ADDRESS, bank];
        let res = self.i2c.write(self.address, buf.as_slice());
        proof {
            let before = old(self).i2c.trace();
            let plan = bank_select(self.address, bank);
            if res is Ok {
                assert(before + plan =~= before.push(plan[0]));
            } else {
                lemma_refused_at_once(before, self.i2c.trace(), plan);
            }
        }
        res
    }

    /// Writes `value` to `register` of `bank`.
    pub fn write_register(&mut self, bank: u8, register: u8, value: u8) -> (res: Result<
        (),
        I2C::Error,
    >)
        ensures
            final(self).same_settings(old(self)),
            outcome(
                res,
                old(self).i2c.trace(),
                final(self).i2c.trace(),
                register_write(old(self).address, bank, register, value),
            ),
    {
        let ghost before = self.i2c.trace();
        let ghost select = bank_select(self.address, bank);
        let ghost pair = BusEvent::Write { address: self.address, bytes: seq![register, value] };
        assert(register_write(self.address, bank, register, value) =~= select + seq![pair]);
        match self.bank(bank) {
            Err(e) => {
                proof {
                    lemma_interrupted_in_first(before, self.i2c.trace(), select, seq![pair]);
                }
                return Err(e);
            },
            Ok(()) => {},
        }
        let ghost middle = self.i2c.trace();
        let buf: [u8; 2] = [register, value];
        let res = self.i2c.write(self.address, buf.as_slice());
        proof {
            if res is Err {
                lemma_refused_at_once(middle, self.i2c.trace(), seq![pair]);
                lemma_interrupted_in_rest(before, middle, self.i2c.trace(), select, seq![pair]);
            }
        }
        res
    }

    /// Writes `values` to the 24 registers of `bank` that start at
    /// `base_offset`, as one block: a whole row of a color plane.
    pub fn write_plane_row(&mut self, bank: u8, base_offset: u8, values: &[u8; 24]) -> (res:
        Result<(), I2C::Error>)
        ensures
            final(self).same_settings(old(self)),
            outcome(
                res,
                old(self).i2c.trace(),
                final(self).i2c.trace(),
                plane_row_trace(old(self).address, bank, base_offset, values@),
            ),
    {
        let ghost before = self.i2c.trace();
        let ghost select = bank_select(self.address, bank);
        let ghost block = BusEvent::Write {
            address: self.address,
            bytes: seq![base_offset] + values@,
        };
        assert(plane_row_trace(self.address, bank, base_offset, values@) =~= select + seq![block]);
        let selected = self.bank(bank);
        proof {
            lemma_step(selected, before, before, self.i2c.trace(), Seq::empty(), select, seq![block]);
        }
        match selected {
            Err(e) => {
                return Err(e);
            },
            Ok(()) => {},
        }
        let mut payload: [u8; 25] = [base_offset; 25];
        let mut i: usize = 0;
        while i < 24
            invariant
                i <= 24,
                payload@[0] == base_offset,
                forall|k: int| 0 <= k < i ==> payload@[k + 1] == values@[k],
            decreases 24 - i,
        {
            payload[i + 1] = values[i];
            i += 1;
        }
        let ghost middle = self.i2c.trace();
        let sent = self.i2c.write(self.address, payload.as_slice());
        proof {
            assert(payload@ =~= seq![base_offset] + values@);
            if sent is Ok {
                assert(middle + seq![block] =~= middle.push(block));
            } else {
                lemma_refused_at_once(middle, self.i2c.trace(), seq![block]);
            }
            lemma_step(sent, before, middle, self.i2c.trace(), select, seq![block], Seq::empty());
        }
        sent
    }

    /// Puts the chip to sleep, or wakes it.
    pub fn sleep(&mut self, yes: bool) -> (res: Result<(), I2C::Error>)
        ensures
            final(self).same_settings(old(self)),
            outcome(
                res,
                old(self).i2c.trace(),
                final(self).i2c.trace(),
                sleep_trace(old(self).address, yes),
            ),
    {
        self.write_register(CONFIG_BANK, SHUTDOWN, if yes { 0 } else { 1 })
    }

    /// Sets the display mode of the chip.
    pub fn mode(&mut self, mode: u8) -> (res: Result<(), I2C::Error>)
        ensures
            final(self).same_settings(old(self)),
            outcome(
                res,
                old(self).i2c.trace(),
                final(self).i2c.trace(),
                mode_trace(old(self).address, mode),
            ),
    {
        self.write_register(CONFIG_BANK, MODE_REGISTER, mode)
    }

    /// Switches audio syncing on or off.
    pub fn audio_sync(&mut self, yes: bool) -> (res: Result<(), I2C::Error>)
        ensures
            final(self).same_settings(old(self)),
            outcome(
                res,
                old(self).i2c.trace(),
                final(self).i2c.trace(),
                audio_sync_trace(old(self).address, yes),
            ),
    {
        self.write_register(CONFIG_BANK, AUDIOSYNC, if yes { 1 } else { 0 })
    }

    /// Makes `frame` the active frame, on the chip and in this handle.
    ///
    /// A `frame` above 8 is refused before anything is written.
    pub fn frame(&mut self, frame: u8) -> (res: Result<(), Error<I2C::Error>>)
        ensures
            final(self).address == old(self).address,
            final(self).width == old(self).width,
            final(self).height == old(self).height,
            final(self).calc_pixel == old(self).calc_pixel,
            frame > 8 ==> {
                &&& res == Err::<(), Error<I2C::Error>>(Error::InvalidLocation(frame))
                &&& final(self).frame == old(self).frame
                &&& final(self).i2c.trace() == old(self).i2c.trace()
            },
            frame <= 8 ==> {
                &&& final(self).frame == frame
                &&& final(self).wf()
                &&& checked_outcome(
                    res,
                    old(self).i2c.trace(),
                    final(self).i2c.trace(),
                    frame_trace(old(self).address, frame),
                )
            },
    {
        if frame > 8 {
            return Err(Error::InvalidLocation(frame));
        }
        self.frame = frame;
        match self.write_register(CONFIG_BANK, FRAME, frame) {
            Ok(()) => Ok(()),
            Err(e) => Err(Error::I2cError(e)),
        }
    }

    /// Sets the LED at `(x, y)` of the active frame to `brightness`.
    ///
    /// An `x` above the width, or else a `y` above the height, is refused
    /// before anything is written; a coordinate equal to the width or the
    /// height is let through.
    pub fn pixel(&mut self, x: u8, y: u8, brightness: u8) -> (res: Result<(), Error<I2C::Error>>)
        requires
            x <= old(self).width && y <= old(self).height ==> old(self).addressable(x, y),
        ensures
            final(self).same_settings(old(self)),
            x > old(self).width ==> {
                &&& res == Err::<(), Error<I2C::Error>>(Error::InvalidLocation(x))
                &&& final(self).i2c.trace() == old(self).i2c.trace()
            },
            x <= old(self).width && y > old(self).height ==> {
                &&& res == Err::<(), Error<I2C::Error>>(Error::InvalidLocation(y))
                &&& final(self).i2c.trace() == old(self).i2c.trace()
            },
            x <= old(self).width && y <= old(self).height ==> checked_outcome(
                res,
                old(self).i2c.trace(),
                final(self).i2c.trace(),
                pixel_trace(
                    old(self).address,
                    old(self).frame,
                    old(self).calc_pixel.offset(x, y),
                    brightness,
                ),
            ),
    {
        if x > self.width {
            return Err(Error::InvalidLocation(x));
        }
        if y > self.height {
            return Err(Error::InvalidLocation(y));
        }
        let pixel: u8 = self.calc_pixel.calc_pixel(x, y);
        match self.write_register(self.frame, COLOR_OFFSET + pixel, brightness) {
            Ok(()) => Ok(()),
            Err(e) => Err(Error::I2cError(e)),
        }
    }

    /// Power-cycles the chip: asleep, 10 ms to settle, awake. What the
    /// frames hold is not touched.
    pub fn reset(&mut self) -> (res: Result<(), I2C::Error>)
        ensures
            final(self).same_settings(old(self)),
            outcome(
                res,
                old(self).i2c.trace(),
                final(self).i2c.trace(),
                reset_trace(old(self).address),
            ),
    {
        let ghost before = self.i2c.trace();
        let ghost asleep = sleep_trace(self.address, true);
        let ghost pause = seq![BusEvent::Delay { ms: 10 }];
        let ghost awake = sleep_trace(self.address, false);
        assert(reset_trace(self.address) =~= asleep + pause + awake);
        match self.sleep(true) {
            Err(e) => {
                proof {
                    lemma_interrupted_in_first(before, self.i2c.trace(), asleep, pause + awake);
                    assert(asleep + (pause + awake) =~= asleep + pause + awake);
                }
                return Err(e);
            },
            Ok(()) => {},
        }
        let ghost slept = self.i2c.trace();
        self.i2c.delay_ms(10);
        let ghost paused = self.i2c.trace();
        proof {
            assert(slept + pause =~= slept.push(pause[0]));
            lemma_completed_in_turn(before, slept, paused, asleep, pause);
        }
        let res = self.sleep(false);
        proof {
            if res is Ok {
                lemma_completed_in_turn(before, paused, self.i2c.trace(), asleep + pause, awake);
            } else {
                lemma_interrupted_in_rest(before, paused, self.i2c.trace(), asleep + pause, awake);
            }
        }
        res
    }

    /// Writes `value` to each of the 18 registers of `bank` that start at
    /// `base`: one whole enable or blink plane.
    pub fn write_plane(&mut self, bank: u8, base: u8, value: u8) -> (res: Result<(), I2C::Error>)
        requires
            base + 17 <= u8::MAX,
        ensures
            final(self).same_settings(old(self)),
            outcome(
                res,
                old(self).i2c.trace(),
                final(self).i2c.trace(),
                register_run(old(self).address, bank, base, value, 18),
            ),
    {
        let ghost before = self.i2c.trace();
        let ghost start = *self;
        let mut col: u8 = 0;
        while col < 18
            invariant
                col <= 18,
                base + 17 <= u8::MAX,
                start == *old(self),
                before == start.i2c.trace(),
                self.same_settings(&start),
                completed(
                    before,
                    self.i2c.trace(),
                    register_run(start.address, bank, base, value, col as nat),
                ),
            decreases 18 - col,
        {
            let ghost middle = self.i2c.trace();
            let ghost done = register_run(start.address, bank, base, value, col as nat);
            let ghost step = register_write(start.address, bank, (base + col) as u8, value);
            match self.write_register(bank, base + col, value) {
                Err(e) => {
                    proof {
                        lemma_interrupted_in_rest(before, middle, self.i2c.trace(), done, step);
                        lemma_interrupted_run(
                            before,
                            self.i2c.trace(),
                            start.address,
                            bank,
                            base,
                            value,
                            (col + 1) as nat,
                            18,
                        );
                    }
                    return Err(e);
                },
                Ok(()) => {
                    proof {
                        lemma_completed_in_turn(before, middle, self.i2c.trace(), done, step);
                    }
                },
            }
            col += 1;
        }
        Ok(())
    }

    /// Sets every LED of `frame` to `brightness`, and where `blink` is
    /// `Some`, switches blinking on or off for all of them; `None` leaves
    /// the blink plane as it is.
    pub fn fill(&mut self, brightness: u8, blink: Option<bool>, frame: u8) -> (res: Result<
        (),
        I2C::Error,
    >)
        ensures
            final(self).same_settings(old(self)),
            outcome(
                res,
                old(self).i2c.trace(),
                final(self).i2c.trace(),
                fill_trace(old(self).address, brightness, blink, frame),
            ),
    {
        let ghost before = self.i2c.trace();
        let ghost start = *self;
        let ghost select = bank_select(self.address, frame);
        let ghost rows = color_rows(self.address, brightness, 6);
        let ghost tail = blink_writes(self.address, blink, frame);
        let selected = self.bank(frame);
        proof {
            lemma_step(selected, before, before, self.i2c.trace(), Seq::empty(), select, rows + tail);
            assert(select + (rows + tail) =~= select + rows + tail);
        }
        match selected {
            Err(e) => {
                return Err(e);
            },
            Ok(()) => {},
        }
        let mut payload: [u8; 25] = [brightness; 25];
        let mut row: u8 = 0;
        while row < 6
            invariant
                row <= 6,
                start == *old(self),
                before == start.i2c.trace(),
                select == bank_select(start.address, frame),
                rows == color_rows(start.address, brightness, 6),
                tail == blink_writes(start.address, blink, frame),
                self.same_settings(&start),
                forall|i: int| 1 <= i < 25 ==> payload@[i] == brightness,
                completed(
                    before,
                    self.i2c.trace(),
                    select + color_rows(start.address, brightness, row as nat),
                ),
            decreases 6 - row,
        {
            payload[0] = COLOR_OFFSET + row * 24;
            let ghost middle = self.i2c.trace();
            let ghost done = select + color_rows(start.address, brightness, row as nat);
            let ghost event = BusEvent::Write {
                address: start.address,
                bytes: row_bytes(row as nat, brightness),
            };
            let ghost rest = rows.skip(row + 1) + tail;
            let sent = self.i2c.write(self.address, payload.as_slice());
            proof {
                assert(payload@ =~= row_bytes(row as nat, brightness));
                assert(done + seq![event] =~= select + color_rows(
                    start.address,
                    brightness,
                    (row + 1) as nat,
                ));
                assert(done + seq![event] + rest =~= select + rows + tail);
                if sent is Ok {
                    assert(middle + seq![event] =~= middle.push(event));
                } else {
                    lemma_refused_at_once(middle, self.i2c.trace(), seq![event]);
                }
                lemma_step(sent, before, middle, self.i2c.trace(), done, seq![event], rest);
            }
            match sent {
                Err(e) => {
                    return Err(e);
                },
                Ok(()) => {},
            }
            row += 1;
        }
        match blink {
            Some(on) => {
                let ghost middle = self.i2c.trace();
                let res = self.write_plane(frame, BLINK_OFFSET, if on { 0xFF } else { 0x00 });
                proof {
                    lemma_step(
                        res,
                        before,
                        middle,
                        self.i2c.trace(),
                        select + rows,
                        tail,
                        Seq::empty(),
                    );
                }
                res
            },
            None => {
                Ok(())
            },
        }
    }

    /// Brings the chip into a known state: asleep, 10 ms to settle, picture
    /// mode, frame 0 active, every frame dark, not blinking and with all its
    /// LEDs enabled, audio sync off, awake.
    ///
    /// Where a block write fails, setup stops there; call it again to
    /// recover. Frame 0 is the active frame of the handle from the moment
    /// setup comes to select it, with five events behind it.
    pub fn setup(&mut self) -> (res: Result<(), Error<I2C::Error>>)
        ensures
            final(self).address == old(self).address,
            final(self).width == old(self).width,
            final(self).height == old(self).height,
            final(self).calc_pixel == old(self).calc_pixel,
            final(self).frame == (if final(self).i2c.trace().len() >= old(self).i2c.trace().len()
                + 6 {
                0u8
            } else {
                old(self).frame
            }),
            checked_outcome(
                res,
                old(self).i2c.trace(),
                final(self).i2c.trace(),
                setup_trace(old(self).address),
            ),
    {
        let ghost before = self.i2c.trace();
        let ghost start = *self;
        let ghost address = self.address;
        let ghost asleep = sleep_trace(address, true);
        let ghost pause = seq![BusEvent::Delay { ms: 10 }];
        let ghost picture = mode_trace(address, PICTURE_MODE);
        let ghost first = frame_trace(address, 0);
        let ghost prologue = setup_prologue(address);
        let ghost frames = frames_init_trace(address, 8);
        let ghost epilogue = setup_epilogue(address);
        let ghost plan = setup_trace(address);
        assert(prologue =~= asleep + pause + picture + first);

        let slept = self.sleep(true);
        proof {
            let rest = pause + picture + first + frames + epilogue;
            lemma_step(slept, before, before, self.i2c.trace(), Seq::empty(), asleep, rest);
            assert(asleep + rest =~= plan);
        }
        match slept {
            Err(e) => {
                return Err(Error::I2cError(e));
            },
            Ok(()) => {},
        }
        let ghost middle = self.i2c.trace();
        self.i2c.delay_ms(10);
        proof {
            assert(middle + pause =~= middle.push(pause[0]));
            lemma_completed_in_turn(before, middle, self.i2c.trace(), asleep, pause);
        }
        let ghost middle = self.i2c.trace();
        let pictured = self.mode(PICTURE_MODE);
        proof {
            let rest = first + frames + epilogue;
            lemma_step(pictured, before, middle, self.i2c.trace(), asleep + pause, picture, rest);
            assert(asleep + pause + picture + rest =~= plan);
        }
        match pictured {
            Err(e) => {
                return Err(Error::I2cError(e));
            },
            Ok(()) => {},
        }
        let ghost middle = self.i2c.trace();
        match self.frame(0) {
            Err(e) => {
                proof {
                    lemma_interrupted_in_rest(
                        before,
                        middle,
                        self.i2c.trace(),
                        asleep + pause + picture,
                        first,
                    );
                    lemma_interrupted_in_first(before, self.i2c.trace(), prologue, frames + epilogue);
                    assert(prologue + (frames + epilogue) =~= plan);
                }
                return Err(e);
            },
            Ok(()) => {
                proof {
                    lemma_completed_in_turn(
                        before,
                        middle,
                        self.i2c.trace(),
                        asleep + pause + picture,
                        first,
                    );
                }
            },
        }
        let ghost entered = self.i2c.trace();
        let mut frame: u8 = 0;
        while frame < 8
            invariant
                frame <= 8,
                start == *old(self),
                address == start.address,
                before == start.i2c.trace(),
                prologue == setup_prologue(address),
                frames == frames_init_trace(address, 8),
                epilogue == setup_epilogue(address),
                plan == setup_trace(address),
                self.address == address,
                self.width == start.width,
                self.height == start.height,
                self.calc_pixel == start.calc_pixel,
                self.frame == 0,
                completed(before, entered, prologue),
                completed(entered, self.i2c.trace(), frames_init_trace(address, frame as nat)),
            decreases 8 - frame,
        {
            let ghost done = frames_init_trace(address, frame as nat);
            let ghost cleared = fill_trace(address, 0, Some(false), frame);
            let ghost enabled = register_run(address, frame, ENABLE_OFFSET, 0xFF, 18);
            assert(frames_init_trace(address, (frame + 1) as nat) =~= done + cleared + enabled);
            let ghost middle = self.i2c.trace();
            let filled = self.fill(0, Some(false), frame);
            proof {
                lemma_step(filled, entered, middle, self.i2c.trace(), done, cleared, enabled);
            }
            match filled {
                Err(e) => {
                    proof {
                        Self::lemma_setup_broke_off(before, entered, self.i2c.trace(), address, frame);
                    }
                    return Err(Error::I2cError(e));
                },
                Ok(()) => {},
            }
            let ghost middle = self.i2c.trace();
            let enabling = self.write_plane(frame, ENABLE_OFFSET, 0xFF);
            proof {
                lemma_step(
                    enabling,
                    entered,
                    middle,
                    self.i2c.trace(),
                    done + cleared,
                    enabled,
                    Seq::empty(),
                );
            }
            match enabling {
                Err(e) => {
                    proof {
                        Self::lemma_setup_broke_off(before, entered, self.i2c.trace(), address, frame);
                    }
                    return Err(Error::I2cError(e));
                },
                Ok(()) => {},
            }
            frame += 1;
        }
        let ghost left = self.i2c.trace();
        proof {
            lemma_completed_in_turn(before, entered, left, prologue, frames);
        }
        let silenced = self.audio_sync(false);
        proof {
            lemma_step(
                silenced,
                before,
                left,
                self.i2c.trace(),
                prologue + frames,
                audio_sync_trace(address, false),
                sleep_trace(address, false),
            );
            assert(prologue + frames + audio_sync_trace(address, false) + sleep_trace(
                address,
                false,
            ) =~= plan);
        }
        match silenced {
            Err(e) => {
                return Err(Error::I2cError(e));
            },
            Ok(()) => {},
        }
        let ghost middle = self.i2c.trace();
        let woken = self.sleep(false);
        proof {
            lemma_step(
                woken,
                before,
                middle,
                self.i2c.trace(),
                prologue + frames + audio_sync_trace(address, false),
                sleep_trace(address, false),
                Seq::empty(),
            );
        }
        match woken {
            Err(e) => Err(Error::I2cError(e)),
            Ok(()) => Ok(()),
        }
    }

    /// Setup that broke off while it initialised frame `frame` broke off as
    /// a whole.
    proof fn lemma_setup_broke_off(
        before: Seq<BusEvent>,
        entered: Seq<BusEvent>,
        after: Seq<BusEvent>,
        address: u8,
        frame: u8,
    )
        requires
            frame < 8,
            completed(before, entered, setup_prologue(address)),
            interrupted(entered, after, frames_init_trace(address, (frame + 1) as nat)),
        ensures
            interrupted(before, after, setup_trace(address)),
    {
        let prologue = setup_prologue(address);
        let frames = frames_init_trace(address, 8);
        lemma_interrupted_frames(entered, after, address, (frame + 1) as nat, 8);
        lemma_interrupted_in_rest(before, entered, after, prologue, frames);
        lemma_interrupted_in_first(before, after, prologue + frames, setup_epilogue(address));
    }
}

} // verus!
