//! A model of the chip's registers, to say what a trace of bus events leaves
//! in them.

use crate::addresses::{
    AUDIOSYNC, BANK_ADDRESS, BLINK_OFFSET, COLOR_OFFSET, CONFIG_BANK, ENABLE_OFFSET, FRAME,
    MODE_REGISTER, PICTURE_MODE, SHUTDOWN,
};
use crate::bus::BusEvent;
use crate::driver::{faithful, PixelMap};
use crate::protocol::{
    audio_sync_trace, bank_select, blink_value, blink_writes, color_rows, fill_trace,
    frame_trace, frames_init_trace, mode_trace, pixel_trace, register_run, register_write,
    row_bytes, setup_epilogue, setup_prologue, setup_trace, sleep_trace,
};
use vstd::prelude::*;

verus! {

/// The registers of one chip.
pub struct Chip {
    /// The bank that register accesses go to.
    pub bank: u8,
    /// What each register of each bank holds, by bank and register.
    pub cells: spec_fn(u8, u8) -> u8,
}

impl Chip {
    /// What `register` of `bank` holds.
    pub open spec fn read(self, bank: u8, register: u8) -> u8 {
        (self.cells)(bank, register)
    }
}

/// Whether a block write of `bytes` puts data into `register`: its first
/// byte names the register the data starts at, and each byte after the
/// second goes to the register after the one before.
pub open spec fn reaches(bytes: Seq<u8>, register: u8) -> bool {
    bytes.len() >= 2 && bytes[0] <= register < bytes[0] + bytes.len() - 1
}

/// The chip after a block write of `bytes` to it. A write to the bank
/// selector changes the current bank; any other puts its data into the
/// registers of the current bank.
pub open spec fn receive(chip: Chip, bytes: Seq<u8>) -> Chip {
    if bytes.len() < 2 {
        chip
    } else if bytes[0] == BANK_ADDRESS {
        Chip { bank: bytes[1], cells: chip.cells }
    } else {
        Chip {
            bank: chip.bank,
            cells: |bank: u8, register: u8|
                if bank == chip.bank && reaches(bytes, register) {
                    bytes[register - bytes[0] + 1]
                } else {
                    (chip.cells)(bank, register)
                },
        }
    }
}

/// The chip at `address` after one event on its bus. Writes to other
/// addresses, writes that failed and delays leave it as it is.
pub open spec fn step(chip: Chip, address: u8, event: BusEvent) -> Chip {
    match event {
        BusEvent::Write { address: to, bytes } => if to == address {
            receive(chip, bytes)
        } else {
            chip
        },
        BusEvent::Refused { .. } => chip,
        BusEvent::Delay { .. } => chip,
    }
}

/// The chip at `address` after all of `trace` has passed on its bus.
pub open spec fn replay(chip: Chip, address: u8, trace: Seq<BusEvent>) -> Chip
    decreases trace.len(),
{
    if trace.len() == 0 {
        chip
    } else {
        step(replay(chip, address, trace.drop_last()), address, trace.last())
    }
}

/// Replaying one event more is one step more.
pub proof fn lemma_replay_push(chip: Chip, address: u8, trace: Seq<BusEvent>, event: BusEvent)
    ensures
        replay(chip, address, trace.push(event)) == step(
            replay(chip, address, trace),
            address,
            event,
        ),
{
    assert(trace.push(event).drop_last() =~= trace);
}

/// Replaying two traces in a row is replaying the second on what the first
/// left.
pub proof fn lemma_replay_concat(
    chip: Chip,
    address: u8,
    first: Seq<BusEvent>,
    rest: Seq<BusEvent>,
)
    ensures
        replay(chip, address, first + rest) == replay(
            replay(chip, address, first),
            address,
            rest,
        ),
    decreases rest.len(),
{
    if rest.len() == 0 {
    } else {
        assert((first + rest).drop_last() =~= first + rest.drop_last());
        lemma_replay_concat(chip, address, first, rest.drop_last());
    }
}

/// A bank selection makes that bank current and changes no register.
pub proof fn lemma_replay_bank_select(chip: Chip, address: u8, bank: u8)
    ensures
        replay(chip, address, bank_select(address, bank)) == (Chip { bank, cells: chip.cells }),
{
    let select = bank_select(address, bank);
    lemma_replay_push(chip, address, Seq::empty(), select[0]);
}

/// A register write leaves its bank current and its value in its register,
/// and every other register as it was.
pub proof fn lemma_replay_register_write(
    chip: Chip,
    address: u8,
    bank: u8,
    register: u8,
    value: u8,
)
    requires
        register != BANK_ADDRESS,
    ensures
        replay(chip, address, register_write(address, bank, register, value)).bank == bank,
        forall|b: u8, r: u8|
            #[trigger] replay(chip, address, register_write(address, bank, register, value)).read(
                b,
                r,
            ) == if b == bank && r == register {
                value
            } else {
                chip.read(b, r)
            },
{
    let select = bank_select(address, bank);
    let pair = BusEvent::Write { address, bytes: seq![register, value] };
    lemma_replay_bank_select(chip, address, bank);
    lemma_replay_push(chip, address, select, pair);
}

/// A run of register writes leaves its value in each register of the run,
/// and every other register as it was.
pub proof fn lemma_replay_register_run(
    chip: Chip,
    address: u8,
    bank: u8,
    base: u8,
    value: u8,
    count: nat,
)
    requires
        base + count <= BANK_ADDRESS,
    ensures
        count > 0 ==> replay(chip, address, register_run(address, bank, base, value, count)).bank
            == bank,
        forall|b: u8, r: u8|
            #[trigger] replay(chip, address, register_run(address, bank, base, value, count)).read(
                b,
                r,
            ) == if b == bank && base <= r < base + count {
                value
            } else {
                chip.read(b, r)
            },
    decreases count,
{
    if count > 0 {
        let shorter = register_run(address, bank, base, value, (count - 1) as nat);
        let last = register_write(address, bank, (base + count - 1) as u8, value);
        lemma_replay_register_run(chip, address, bank, base, value, (count - 1) as nat);
        lemma_replay_concat(chip, address, shorter, last);
        lemma_replay_register_write(
            replay(chip, address, shorter),
            address,
            bank,
            (base + count - 1) as u8,
            value,
        );
    }
}

/// The first `rows` rows of a color plane leave the brightness in each of
/// their registers in the current bank, and every other register as it was.
pub proof fn lemma_replay_color_rows(chip: Chip, address: u8, brightness: u8, rows: nat)
    requires
        rows <= 6,
    ensures
        replay(chip, address, color_rows(address, brightness, rows)).bank == chip.bank,
        forall|b: u8, r: u8|
            #[trigger] replay(chip, address, color_rows(address, brightness, rows)).read(b, r)
                == if b == chip.bank && COLOR_OFFSET <= r < COLOR_OFFSET + 24 * rows {
                brightness
            } else {
                chip.read(b, r)
            },
    decreases rows,
{
    if rows > 0 {
        let shorter = color_rows(address, brightness, (rows - 1) as nat);
        let last = BusEvent::Write {
            address,
            bytes: row_bytes((rows - 1) as nat, brightness),
        };
        lemma_replay_color_rows(chip, address, brightness, (rows - 1) as nat);
        assert(color_rows(address, brightness, rows) =~= shorter.push(last));
        lemma_replay_push(chip, address, shorter, last);
        let bytes = row_bytes((rows - 1) as nat, brightness);
        let reached = replay(chip, address, shorter);
        let colored = replay(chip, address, color_rows(address, brightness, rows));
        assert forall|b: u8, r: u8|
            #[trigger] colored.read(b, r) == if b == chip.bank && COLOR_OFFSET <= r < COLOR_OFFSET
                + 24 * rows {
                brightness
            } else {
                chip.read(b, r)
            } by {
            if !(b == chip.bank && reaches(bytes, r)) {
                assert(colored.read(b, r) == reached.read(b, r));
            }
        }
    }
}

/// What a register of the chip holds after a fill of `frame`: the
/// brightness throughout the color plane of the frame, the blink value
/// throughout its blink plane where one was given, and what it held before
/// everywhere else.
pub open spec fn after_fill(
    chip: Chip,
    brightness: u8,
    blink: Option<bool>,
    frame: u8,
    bank: u8,
    register: u8,
) -> u8 {
    if bank == frame && COLOR_OFFSET <= register < COLOR_OFFSET + 144 {
        brightness
    } else if bank == frame && blink is Some && BLINK_OFFSET <= register < BLINK_OFFSET + 18 {
        blink_value(blink->Some_0)
    } else {
        chip.read(bank, register)
    }
}

/// A fill leaves the registers as [`after_fill`] says.
pub proof fn lemma_replay_fill(
    chip: Chip,
    address: u8,
    brightness: u8,
    blink: Option<bool>,
    frame: u8,
)
    ensures
        replay(chip, address, fill_trace(address, brightness, blink, frame)).bank == frame,
        forall|b: u8, r: u8|
            #[trigger] replay(chip, address, fill_trace(address, brightness, blink, frame)).read(
                b,
                r,
            ) == after_fill(chip, brightness, blink, frame, b, r),
{
    let select = bank_select(address, frame);
    let rows = color_rows(address, brightness, 6);
    let tail = blink_writes(address, blink, frame);
    let selected = replay(chip, address, select);
    let colored = replay(selected, address, rows);
    lemma_replay_bank_select(chip, address, frame);
    lemma_replay_color_rows(selected, address, brightness, 6);
    lemma_replay_concat(chip, address, select, rows);
    lemma_replay_concat(chip, address, select + rows, tail);
    match blink {
        Some(on) => {
            lemma_replay_register_run(colored, address, frame, BLINK_OFFSET, blink_value(on), 18);
        },
        None => {},
    }
}

/// What a register of the chip holds once the first `frames` frames are
/// initialised: in each of them `0xFF` throughout the enable plane and zero
/// throughout the blink and color planes, and what it held before everywhere
/// else.
pub open spec fn after_frames_init(chip: Chip, frames: nat, bank: u8, register: u8) -> u8 {
    if bank < frames && register < BLINK_OFFSET {
        0xFF
    } else if bank < frames && register < COLOR_OFFSET + 144 {
        0
    } else {
        chip.read(bank, register)
    }
}

/// Initialising frames leaves the registers as [`after_frames_init`] says.
pub proof fn lemma_replay_frames_init(chip: Chip, address: u8, frames: nat)
    requires
        frames <= 8,
    ensures
        forall|b: u8, r: u8|
            #[trigger] replay(chip, address, frames_init_trace(address, frames)).read(b, r)
                == after_frames_init(chip, frames, b, r),
    decreases frames,
{
    if frames > 0 {
        let frame = (frames - 1) as u8;
        let earlier = frames_init_trace(address, (frames - 1) as nat);
        let cleared = fill_trace(address, 0, Some(false), frame);
        let enabled = register_run(address, frame, ENABLE_OFFSET, 0xFF, 18);
        let reached = replay(chip, address, earlier);
        let dark = replay(reached, address, cleared);
        lemma_replay_frames_init(chip, address, (frames - 1) as nat);
        lemma_replay_fill(reached, address, 0, Some(false), frame);
        lemma_replay_register_run(dark, address, frame, ENABLE_OFFSET, 0xFF, 18);
        lemma_replay_concat(reached, address, cleared, enabled);
        lemma_replay_concat(chip, address, earlier, cleared + enabled);
    }
}

/// After setup the chip is awake in picture mode with frame 0 shown and
/// audio sync off, and each of the 8 frames has its enable plane all on and
/// its blink and color planes all zero.
pub proof fn lemma_replay_setup(chip: Chip, address: u8)
    ensures
        ({
            let ready = replay(chip, address, setup_trace(address));
            &&& ready.read(CONFIG_BANK, SHUTDOWN) == 1
            &&& ready.read(CONFIG_BANK, MODE_REGISTER) == PICTURE_MODE
            &&& ready.read(CONFIG_BANK, FRAME) == 0
            &&& ready.read(CONFIG_BANK, AUDIOSYNC) == 0
            &&& forall|frame: u8, register: u8|
                frame < 8 && register < COLOR_OFFSET + 144 ==> #[trigger] ready.read(
                    frame,
                    register,
                ) == if register < BLINK_OFFSET {
                    0xFFu8
                } else {
                    0u8
                }
        }),
{
    let asleep = sleep_trace(address, true);
    let pause = BusEvent::Delay { ms: 10 };
    let picture = mode_trace(address, PICTURE_MODE);
    let first = frame_trace(address, 0);
    let prologue = setup_prologue(address);
    let frames = frames_init_trace(address, 8);
    let audio = audio_sync_trace(address, false);
    let awake = sleep_trace(address, false);
    let slept = replay(chip, address, asleep);
    lemma_replay_push(chip, address, asleep, pause);
    let pictured = replay(slept, address, picture);
    lemma_replay_register_write(slept, address, CONFIG_BANK, MODE_REGISTER, PICTURE_MODE);
    lemma_replay_concat(chip, address, asleep.push(pause), picture);
    let selected = replay(pictured, address, first);
    lemma_replay_register_write(pictured, address, CONFIG_BANK, FRAME, 0);
    lemma_replay_concat(chip, address, asleep.push(pause) + picture, first);
    let cleared = replay(selected, address, frames);
    lemma_replay_frames_init(selected, address, 8);
    lemma_replay_concat(chip, address, prologue, frames);
    let silenced = replay(cleared, address, audio);
    lemma_replay_register_write(cleared, address, CONFIG_BANK, AUDIOSYNC, 0);
    lemma_replay_register_write(silenced, address, CONFIG_BANK, SHUTDOWN, 1);
    lemma_replay_concat(cleared, address, audio, awake);
    lemma_replay_concat(chip, address, prologue + frames, setup_epilogue(address));
}

/// One fill, as a caller asks for it.
pub struct Fill {
    /// The brightness for every LED of the frame.
    pub brightness: u8,
    /// The blink setting for every LED of the frame, if any.
    pub blink: Option<bool>,
    /// The frame that is filled.
    pub frame: u8,
}

/// What a series of fills puts on the bus, the first fill first.
pub open spec fn fills_trace(address: u8, fills: Seq<Fill>) -> Seq<BusEvent>
    decreases fills.len(),
{
    if fills.len() == 0 {
        Seq::empty()
    } else {
        fills_trace(address, fills.drop_last()) + fill_trace(
            address,
            fills.last().brightness,
            fills.last().blink,
            fills.last().frame,
        )
    }
}

/// The brightness of the last of `fills` that went to `frame`, and zero
/// where none did.
pub open spec fn last_filled(fills: Seq<Fill>, frame: u8) -> u8
    decreases fills.len(),
{
    if fills.len() == 0 {
        0
    } else if fills.last().frame == frame {
        fills.last().brightness
    } else {
        last_filled(fills.drop_last(), frame)
    }
}

/// After setup and any series of fills, every register of the color plane
/// of each of the 8 frames holds the brightness that the frame was last
/// filled with, and zero where it has not been filled since setup.
pub proof fn lemma_color_plane_round_trip(
    chip: Chip,
    address: u8,
    fills: Seq<Fill>,
    frame: u8,
    position: u8,
)
    requires
        frame < 8,
        position < 144,
    ensures
        replay(chip, address, setup_trace(address) + fills_trace(address, fills)).read(
            frame,
            (COLOR_OFFSET + position) as u8,
        ) == last_filled(fills, frame),
    decreases fills.len(),
{
    let setup = setup_trace(address);
    if fills.len() == 0 {
        lemma_replay_setup(chip, address);
    } else {
        let earlier = fills_trace(address, fills.drop_last());
        let last = fills.last();
        let fill = fill_trace(address, last.brightness, last.blink, last.frame);
        assert(setup + (earlier + fill) =~= (setup + earlier) + fill);
        lemma_replay_concat(chip, address, setup + earlier, fill);
        lemma_replay_fill(
            replay(chip, address, setup + earlier),
            address,
            last.brightness,
            last.blink,
            last.frame,
        );
        lemma_color_plane_round_trip(chip, address, fills.drop_last(), frame, position);
    }
}

/// Two LEDs at different positions of a grid that the wiring is faithful
/// on do not share a register: set one after the other, each holds its own
/// brightness.
pub proof fn lemma_pixels_keep_apart<M: PixelMap>(
    map: &M,
    width: u8,
    height: u8,
    chip: Chip,
    address: u8,
    frame: u8,
    first: (u8, u8, u8),
    second: (u8, u8, u8),
)
    requires
        faithful(map, width, height),
        first.0 < width && first.1 < height,
        second.0 < width && second.1 < height,
        first.0 != second.0 || first.1 != second.1,
    ensures
        ({
            let one = map.offset(first.0, first.1);
            let other = map.offset(second.0, second.1);
            let lit = replay(
                chip,
                address,
                pixel_trace(address, frame, one, first.2) + pixel_trace(
                    address,
                    frame,
                    other,
                    second.2,
                ),
            );
            &&& lit.read(frame, (COLOR_OFFSET + one) as u8) == first.2
            &&& lit.read(frame, (COLOR_OFFSET + other) as u8) == second.2
        }),
{
    let one = map.offset(first.0, first.1);
    let other = map.offset(second.0, second.1);
    assert(map.covers(first.0, first.1) && map.covers(second.0, second.1));
    let started = pixel_trace(address, frame, one, first.2);
    let ended = pixel_trace(address, frame, other, second.2);
    lemma_replay_concat(chip, address, started, ended);
    lemma_replay_register_write(chip, address, frame, (COLOR_OFFSET + one) as u8, first.2);
    lemma_replay_register_write(
        replay(chip, address, started),
        address,
        frame,
        (COLOR_OFFSET + other) as u8,
        second.2,
    );
}

} // verus!
