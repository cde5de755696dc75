//! What each operation of the driver puts on the bus, as sequences of bus
//! events, and what it means for such a sequence to run through or break off.

use crate::addresses::{
    AUDIOSYNC, BANK_ADDRESS, BLINK_OFFSET, COLOR_OFFSET, CONFIG_BANK, ENABLE_OFFSET, FRAME,
    MODE_REGISTER, PICTURE_MODE, SHUTDOWN,
};
use crate::bus::BusEvent;
use vstd::prelude::*;

verus! {

/// The block write that makes `bank` the current bank.
pub open spec fn bank_select(address: u8, bank: u8) -> Seq<BusEvent> {
    seq![BusEvent::Write { address, bytes: seq![BANK_ADDRESS, bank] }]
}

/// A write of `value` to `register` of `bank`: the bank is selected, then the
/// pair of register and value is sent.
pub open spec fn register_write(address: u8, bank: u8, register: u8, value: u8) -> Seq<BusEvent> {
    bank_select(address, bank).push(BusEvent::Write { address, bytes: seq![register, value] })
}

/// Writes of `value` to the `count` registers of `bank` that start at `base`,
/// lowest register first.
pub open spec fn register_run(address: u8, bank: u8, base: u8, value: u8, count: nat) -> Seq<
    BusEvent,
>
    decreases count,
{
    if count == 0 {
        Seq::empty()
    } else {
        register_run(address, bank, base, value, (count - 1) as nat) + register_write(
            address,
            bank,
            (base + count - 1) as u8,
            value,
        )
    }
}

/// A write of `values` to the registers of `bank` from `base` on, as one
/// block: the bank is selected, then the first register and the values are
/// sent in a single block write.
pub open spec fn plane_row_trace(address: u8, bank: u8, base: u8, values: Seq<u8>) -> Seq<
    BusEvent,
> {
    bank_select(address, bank).push(BusEvent::Write { address, bytes: seq![base] + values })
}

/// The 25 bytes that set row `row` of a color plane to `brightness`: the
/// register the row starts at, then one byte for each of its 24 positions.
pub open spec fn row_bytes(row: nat, brightness: u8) -> Seq<u8> {
    Seq::new(
        25,
        |i: int|
            if i == 0 {
                (COLOR_OFFSET + row * 24) as u8
            } else {
                brightness
            },
    )
}

/// The block writes that set the first `rows` rows of a color plane to
/// `brightness`, in the bank that is current.
pub open spec fn color_rows(address: u8, brightness: u8, rows: nat) -> Seq<BusEvent> {
    Seq::new(rows, |r: int| BusEvent::Write { address, bytes: row_bytes(r as nat, brightness) })
}

/// The value that switches every position of a blink plane byte on or off.
pub open spec fn blink_value(on: bool) -> u8 {
    if on {
        0xFF
    } else {
        0x00
    }
}

/// The writes to the blink plane of `frame` that a fill adds: none where
/// `blink` is `None`, else one for each of its 18 registers.
pub open spec fn blink_writes(address: u8, blink: Option<bool>, frame: u8) -> Seq<BusEvent> {
    match blink {
        Some(on) => register_run(address, frame, BLINK_OFFSET, blink_value(on), 18),
        None => Seq::empty(),
    }
}

/// Everything a fill of `frame` puts on the bus: the bank of the frame is
/// selected, the six rows of its color plane are written, and the blink
/// plane follows where `blink` asks for it.
pub open spec fn fill_trace(address: u8, brightness: u8, blink: Option<bool>, frame: u8) -> Seq<
    BusEvent,
> {
    bank_select(address, frame) + color_rows(address, brightness, 6) + blink_writes(
        address,
        blink,
        frame,
    )
}

/// The value of the shutdown register that puts the chip to sleep or wakes it.
pub open spec fn shutdown_value(sleep: bool) -> u8 {
    if sleep {
        0
    } else {
        1
    }
}

/// The value of the audio-sync register that switches syncing on or off.
pub open spec fn audio_sync_value(on: bool) -> u8 {
    if on {
        1
    } else {
        0
    }
}

pub open spec fn sleep_trace(address: u8, sleep: bool) -> Seq<BusEvent> {
    register_write(address, CONFIG_BANK, SHUTDOWN, shutdown_value(sleep))
}

pub open spec fn mode_trace(address: u8, mode: u8) -> Seq<BusEvent> {
    register_write(address, CONFIG_BANK, MODE_REGISTER, mode)
}

pub open spec fn audio_sync_trace(address: u8, on: bool) -> Seq<BusEvent> {
    register_write(address, CONFIG_BANK, AUDIOSYNC, audio_sync_value(on))
}

pub open spec fn frame_trace(address: u8, frame: u8) -> Seq<BusEvent> {
    register_write(address, CONFIG_BANK, FRAME, frame)
}

/// A write of `brightness` to the register of the color plane of `frame`
/// that lies `offset` registers into it.
pub open spec fn pixel_trace(address: u8, frame: u8, offset: u8, brightness: u8) -> Seq<BusEvent>
    recommends
        COLOR_OFFSET + offset <= u8::MAX,
{
    register_write(address, frame, (COLOR_OFFSET + offset) as u8, brightness)
}

/// Writes of `r`, `g` and `b` to the registers of the color plane of `frame`
/// that lie `red`, `green` and `blue` registers into it, in that order.
pub open spec fn rgb_trace(
    address: u8,
    frame: u8,
    red: u8,
    green: u8,
    blue: u8,
    r: u8,
    g: u8,
    b: u8,
) -> Seq<BusEvent> {
    pixel_trace(address, frame, red, r) + pixel_trace(address, frame, green, g) + pixel_trace(
        address,
        frame,
        blue,
        b,
    )
}

/// A power cycle: asleep, the settle time of the chip, awake.
pub open spec fn reset_trace(address: u8) -> Seq<BusEvent> {
    sleep_trace(address, true).push(BusEvent::Delay { ms: 10 }) + sleep_trace(address, false)
}

/// What brings one frame to its initial state: its color plane zeroed, its
/// blink plane off, and every position of its enable plane on.
pub open spec fn frame_init_trace(address: u8, frame: u8) -> Seq<BusEvent> {
    fill_trace(address, 0, Some(false), frame) + register_run(
        address,
        frame,
        ENABLE_OFFSET,
        0xFF,
        18,
    )
}

/// [`frame_init_trace`] for the first `frames` frames, frame 0 first.
pub open spec fn frames_init_trace(address: u8, frames: nat) -> Seq<BusEvent>
    decreases frames,
{
    if frames == 0 {
        Seq::empty()
    } else {
        frames_init_trace(address, (frames - 1) as nat) + frame_init_trace(
            address,
            (frames - 1) as u8,
        )
    }
}

/// What comes before the frames are initialised during setup: the chip is
/// put to sleep, given its settle time, set to picture mode and to frame 0.
pub open spec fn setup_prologue(address: u8) -> Seq<BusEvent> {
    sleep_trace(address, true).push(BusEvent::Delay { ms: 10 }) + mode_trace(
        address,
        PICTURE_MODE,
    ) + frame_trace(address, 0)
}

/// What follows the frames during setup: audio sync off, then awake.
pub open spec fn setup_epilogue(address: u8) -> Seq<BusEvent> {
    audio_sync_trace(address, false) + sleep_trace(address, false)
}

/// Everything setup puts on the bus.
pub open spec fn setup_trace(address: u8) -> Seq<BusEvent> {
    setup_prologue(address) + frames_init_trace(address, 8) + setup_epilogue(address)
}

/// The bus went from `before` to `after` by completing all of `plan`.
pub open spec fn completed(before: Seq<BusEvent>, after: Seq<BusEvent>, plan: Seq<BusEvent>) -> bool {
    after == before + plan
}

/// What the trace shows of the block write `event` where it failed.
pub open spec fn refused(event: BusEvent) -> BusEvent {
    match event {
        BusEvent::Write { address, bytes } => BusEvent::Refused { address, bytes },
        other => other,
    }
}

/// The bus went from `before` to `after` by completing the first `done`
/// events of `plan` and refusing the next one, a block write.
pub open spec fn broke_off_at(
    before: Seq<BusEvent>,
    after: Seq<BusEvent>,
    plan: Seq<BusEvent>,
    done: int,
) -> bool {
    &&& 0 <= done < plan.len()
    &&& plan[done] is Write
    &&& after == (before + plan.take(done)).push(refused(plan[done]))
}

/// The bus went from `before` to `after` by completing a proper part of
/// `plan` from its start: the block write that came next failed, and nothing
/// after it was tried.
pub open spec fn interrupted(before: Seq<BusEvent>, after: Seq<BusEvent>, plan: Seq<BusEvent>) -> bool {
    exists|done: int| #[trigger] broke_off_at(before, after, plan, done)
}

/// How an operation that puts `plan` on the bus may end: with `Ok` and all of
/// it completed, or with the error of the block write that failed and the
/// part before that write completed.
pub open spec fn outcome<E>(
    res: Result<(), E>,
    before: Seq<BusEvent>,
    after: Seq<BusEvent>,
    plan: Seq<BusEvent>,
) -> bool {
    match res {
        Ok(_) => completed(before, after, plan),
        Err(_) => interrupted(before, after, plan),
    }
}

/// A plan that broke off still broke off, at the same place, when more is
/// planned behind it.
pub proof fn lemma_interrupted_in_first(
    before: Seq<BusEvent>,
    after: Seq<BusEvent>,
    first: Seq<BusEvent>,
    rest: Seq<BusEvent>,
)
    requires
        interrupted(before, after, first),
    ensures
        interrupted(before, after, first + rest),
{
    let done = choose|done: int| broke_off_at(before, after, first, done);
    assert((first + rest).take(done) =~= first.take(done));
    assert(broke_off_at(before, after, first + rest, done));
}

/// Where a first plan was completed and a second broke off, the two in a row
/// broke off.
pub proof fn lemma_interrupted_in_rest(
    before: Seq<BusEvent>,
    middle: Seq<BusEvent>,
    after: Seq<BusEvent>,
    first: Seq<BusEvent>,
    rest: Seq<BusEvent>,
)
    requires
        completed(before, middle, first),
        interrupted(middle, after, rest),
    ensures
        interrupted(before, after, first + rest),
{
    let done = choose|done: int| broke_off_at(middle, after, rest, done);
    assert((first + rest).take(first.len() + done) =~= first + rest.take(done));
    assert(before + (first + rest.take(done)) =~= (before + first) + rest.take(done));
    assert(broke_off_at(before, after, first + rest, first.len() + done));
}

/// A plan whose first event is a block write that failed has broken off.
pub proof fn lemma_refused_at_once(
    before: Seq<BusEvent>,
    after: Seq<BusEvent>,
    plan: Seq<BusEvent>,
)
    requires
        plan.len() > 0,
        plan[0] is Write,
        after == before.push(refused(plan[0])),
    ensures
        interrupted(before, after, plan),
{
    assert(broke_off_at(before, after, plan, 0));
}

/// Two plans completed one after the other are their concatenation completed.
pub proof fn lemma_completed_in_turn(
    before: Seq<BusEvent>,
    middle: Seq<BusEvent>,
    after: Seq<BusEvent>,
    first: Seq<BusEvent>,
    rest: Seq<BusEvent>,
)
    requires
        completed(before, middle, first),
        completed(middle, after, rest),
    ensures
        completed(before, after, first + rest),
{
    assert(before + (first + rest) =~= (before + first) + rest);
}

/// A run of register writes that broke off is a longer run that broke off.
pub proof fn lemma_interrupted_run(
    before: Seq<BusEvent>,
    after: Seq<BusEvent>,
    address: u8,
    bank: u8,
    base: u8,
    value: u8,
    count: nat,
    longer: nat,
)
    requires
        count <= longer,
        interrupted(before, after, register_run(address, bank, base, value, count)),
    ensures
        interrupted(before, after, register_run(address, bank, base, value, longer)),
    decreases longer - count,
{
    if count < longer {
        lemma_interrupted_run(before, after, address, bank, base, value, count, (longer - 1) as nat);
        lemma_interrupted_in_first(
            before,
            after,
            register_run(address, bank, base, value, (longer - 1) as nat),
            register_write(address, bank, (base + longer - 1) as u8, value),
        );
    }
}

/// A run of frame initialisations that broke off is a longer run that broke
/// off.
pub proof fn lemma_interrupted_frames(
    before: Seq<BusEvent>,
    after: Seq<BusEvent>,
    address: u8,
    frames: nat,
    more: nat,
)
    requires
        frames <= more,
        interrupted(before, after, frames_init_trace(address, frames)),
    ensures
        interrupted(before, after, frames_init_trace(address, more)),
    decreases more - frames,
{
    if frames < more {
        lemma_interrupted_frames(before, after, address, frames, (more - 1) as nat);
        lemma_interrupted_in_first(
            before,
            after,
            frames_init_trace(address, (more - 1) as nat),
            frame_init_trace(address, (more - 1) as u8),
        );
    }
}

/// One more step of a plan: where what came before it was completed, the
/// step either completes the plan so far or interrupts the whole plan.
pub proof fn lemma_step<E>(
    res: Result<(), E>,
    before: Seq<BusEvent>,
    middle: Seq<BusEvent>,
    after: Seq<BusEvent>,
    done: Seq<BusEvent>,
    step: Seq<BusEvent>,
    rest: Seq<BusEvent>,
)
    requires
        completed(before, middle, done),
        outcome(res, middle, after, step),
    ensures
        res is Ok ==> completed(before, after, done + step),
        res is Err ==> interrupted(before, after, done + step + rest),
{
    if res is Ok {
        lemma_completed_in_turn(before, middle, after, done, step);
    } else {
        lemma_interrupted_in_rest(before, middle, after, done, step);
        lemma_interrupted_in_first(before, after, done + step, rest);
    }
}

/// Whether `event` is a block write that carries data to registers, not one
/// that selects a bank.
pub open spec fn is_register_write(event: BusEvent) -> bool {
    match event {
        BusEvent::Write { bytes, .. } => bytes.len() >= 2 && bytes[0] != BANK_ADDRESS,
        BusEvent::Refused { .. } => false,
        BusEvent::Delay { .. } => false,
    }
}

/// The number of block writes in `trace` that carry data to registers.
pub open spec fn register_writes(trace: Seq<BusEvent>) -> nat
    decreases trace.len(),
{
    if trace.len() == 0 {
        0
    } else {
        register_writes(trace.drop_last()) + if is_register_write(trace.last()) {
            1nat
        } else {
            0nat
        }
    }
}

/// One more event adds one to the register writes of a trace where it is a
/// register write, and nothing where it is not.
pub proof fn lemma_register_writes_push(trace: Seq<BusEvent>, event: BusEvent)
    ensures
        register_writes(trace.push(event)) == register_writes(trace) + (if is_register_write(
            event,
        ) {
            1nat
        } else {
            0nat
        }),
{
    assert(trace.push(event).drop_last() =~= trace);
}

/// The register writes of two traces in a row are those of the one and
/// those of the other.
pub proof fn lemma_register_writes_concat(first: Seq<BusEvent>, rest: Seq<BusEvent>)
    ensures
        register_writes(first + rest) == register_writes(first) + register_writes(rest),
    decreases rest.len(),
{
    if rest.len() == 0 {
    } else {
        assert((first + rest).drop_last() =~= first + rest.drop_last());
        lemma_register_writes_concat(first, rest.drop_last());
    }
}

/// A run over `count` registers is `count` pairs of a bank selection and a
/// write of the value to the next register.
pub proof fn lemma_register_run_shape(address: u8, bank: u8, base: u8, value: u8, count: nat)
    requires
        base + count <= BANK_ADDRESS,
    ensures
        register_run(address, bank, base, value, count).len() == 2 * count,
        register_writes(register_run(address, bank, base, value, count)) == count,
        forall|c: int|
            #![trigger register_run(address, bank, base, value, count)[2 * c]]
            0 <= c < count ==> {
                &&& register_run(address, bank, base, value, count)[2 * c] == (BusEvent::Write {
                    address,
                    bytes: seq![BANK_ADDRESS, bank],
                })
                &&& register_run(address, bank, base, value, count)[2 * c + 1] == (
                BusEvent::Write { address, bytes: seq![(base + c) as u8, value] })
            },
    decreases count,
{
    if count > 0 {
        let shorter = register_run(address, bank, base, value, (count - 1) as nat);
        let last = register_write(address, bank, (base + count - 1) as u8, value);
        lemma_register_run_shape(address, bank, base, value, (count - 1) as nat);
        lemma_register_writes_concat(shorter, last);
        lemma_single_register_write(address, bank, (base + count - 1) as u8, value);
        assert forall|c: int| 0 <= c < count implies {
            &&& #[trigger] register_run(address, bank, base, value, count)[2 * c] == (
            BusEvent::Write { address, bytes: seq![BANK_ADDRESS, bank] })
            &&& register_run(address, bank, base, value, count)[2 * c + 1] == (BusEvent::Write {
                address,
                bytes: seq![(base + c) as u8, value],
            })
        } by {
            if c < count - 1 {
            }
        }
    }
}

/// The first `rows` rows of a color plane are `rows` register writes.
pub proof fn lemma_color_rows_count(address: u8, brightness: u8, rows: nat)
    requires
        rows <= 6,
    ensures
        register_writes(color_rows(address, brightness, rows)) == rows,
    decreases rows,
{
    if rows > 0 {
        lemma_color_rows_count(address, brightness, (rows - 1) as nat);
        assert(color_rows(address, brightness, rows).drop_last() =~= color_rows(
            address,
            brightness,
            (rows - 1) as nat,
        ));
    }
}

/// What a fill puts on the bus, event by event: the selection of the
/// frame's bank, then six block writes of 25 bytes, one for each row of the
/// color plane. Without a blink setting that is all, six register writes;
/// with one, 18 writes of a single register follow, each behind a selection
/// of the bank, which makes 24.
pub proof fn lemma_fill_trace_shape(address: u8, brightness: u8, blink: Option<bool>, frame: u8)
    ensures
        fill_trace(address, brightness, blink, frame).len() == (if blink is Some {
            43int
        } else {
            7int
        }),
        register_writes(fill_trace(address, brightness, blink, frame)) == (if blink is Some {
            24int
        } else {
            6int
        }),
        fill_trace(address, brightness, blink, frame)[0] == (BusEvent::Write {
            address,
            bytes: seq![BANK_ADDRESS, frame],
        }),
        forall|r: int|
            #![trigger fill_trace(address, brightness, blink, frame)[1 + r]]
            0 <= r < 6 ==> {
                &&& fill_trace(address, brightness, blink, frame)[1 + r] == (BusEvent::Write {
                    address,
                    bytes: row_bytes(r as nat, brightness),
                })
                &&& row_bytes(r as nat, brightness).len() == 25
                &&& row_bytes(r as nat, brightness)[0] == COLOR_OFFSET + r * 24
            },
        forall|c: int|
            #![trigger fill_trace(address, brightness, blink, frame)[7 + 2 * c]]
            blink is Some && 0 <= c < 18 ==> {
                &&& fill_trace(address, brightness, blink, frame)[7 + 2 * c] == (BusEvent::Write {
                    address,
                    bytes: seq![BANK_ADDRESS, frame],
                })
                &&& fill_trace(address, brightness, blink, frame)[7 + 2 * c + 1] == (
                BusEvent::Write {
                    address,
                    bytes: seq![(BLINK_OFFSET + c) as u8, blink_value(blink->Some_0)],
                })
            },
{
    let select = bank_select(address, frame);
    let rows = color_rows(address, brightness, 6);
    let tail = blink_writes(address, blink, frame);
    let whole = fill_trace(address, brightness, blink, frame);
    lemma_color_rows_count(address, brightness, 6);
    lemma_register_writes_concat(select, rows);
    lemma_register_writes_concat(select + rows, tail);
    lemma_register_writes_push(Seq::empty(), select[0]);
    match blink {
        Some(on) => {
            lemma_register_run_shape(address, frame, BLINK_OFFSET, blink_value(on), 18);
            assert forall|c: int| 0 <= c < 18 implies {
                &&& #[trigger] whole[7 + 2 * c] == (BusEvent::Write {
                    address,
                    bytes: seq![BANK_ADDRESS, frame],
                })
                &&& whole[7 + 2 * c + 1] == (BusEvent::Write {
                    address,
                    bytes: seq![(BLINK_OFFSET + c) as u8, blink_value(on)],
                })
            } by {
            }
        },
        None => {},
    }
    assert forall|r: int| 0 <= r < 6 implies #[trigger] whole[1 + r] == (BusEvent::Write {
        address,
        bytes: row_bytes(r as nat, brightness),
    }) by {
    }
}

/// What bringing `frames` frames to their initial state puts on the bus: 79
/// events for each, 42 of them register writes.
pub proof fn lemma_frames_init_trace_shape(address: u8, frames: nat)
    requires
        frames <= 8,
    ensures
        frames_init_trace(address, frames).len() == 79 * frames,
        register_writes(frames_init_trace(address, frames)) == 42 * frames,
    decreases frames,
{
    if frames > 0 {
        let frame = (frames - 1) as u8;
        let cleared = fill_trace(address, 0, Some(false), frame);
        let enabled = register_run(address, frame, ENABLE_OFFSET, 0xFF, 18);
        lemma_frames_init_trace_shape(address, (frames - 1) as nat);
        lemma_fill_trace_shape(address, 0, Some(false), frame);
        lemma_register_run_shape(address, frame, ENABLE_OFFSET, 0xFF, 18);
        lemma_register_writes_concat(cleared, enabled);
        lemma_register_writes_concat(
            frames_init_trace(address, (frames - 1) as nat),
            cleared + enabled,
        );
    }
}

/// What setup puts on the bus, counted: 643 events, the third of them the
/// pause of 10 ms, and 341 register writes. These are one each for sleep,
/// mode and frame, then for each of the 8 frames 6 rows of the color plane,
/// 18 registers of the blink plane and 18 of the enable plane, and one each
/// for audio sync and waking.
pub proof fn lemma_setup_trace_shape(address: u8)
    ensures
        setup_trace(address).len() == 643,
        setup_trace(address)[2] == (BusEvent::Delay { ms: 10 }),
        register_writes(setup_trace(address)) == 1 + 1 + 1 + 8 * (6 + 18 + 18) + 1 + 1,
{
    let asleep = sleep_trace(address, true);
    let pause = seq![BusEvent::Delay { ms: 10 }];
    let picture = mode_trace(address, PICTURE_MODE);
    let first = frame_trace(address, 0);
    let prologue = setup_prologue(address);
    let frames = frames_init_trace(address, 8);
    let audio = audio_sync_trace(address, false);
    let awake = sleep_trace(address, false);
    lemma_frames_init_trace_shape(address, 8);
    lemma_single_register_write(address, CONFIG_BANK, SHUTDOWN, shutdown_value(true));
    lemma_single_register_write(address, CONFIG_BANK, MODE_REGISTER, PICTURE_MODE);
    lemma_single_register_write(address, CONFIG_BANK, FRAME, 0);
    lemma_single_register_write(address, CONFIG_BANK, AUDIOSYNC, audio_sync_value(false));
    lemma_single_register_write(address, CONFIG_BANK, SHUTDOWN, shutdown_value(false));
    lemma_register_writes_push(Seq::empty(), pause[0]);
    assert(prologue =~= asleep + pause + picture + first);
    lemma_register_writes_concat(asleep, pause);
    lemma_register_writes_concat(asleep + pause, picture);
    lemma_register_writes_concat(asleep + pause + picture, first);
    lemma_register_writes_concat(audio, awake);
    lemma_register_writes_concat(prologue, frames);
    lemma_register_writes_concat(prologue + frames, setup_epilogue(address));
}

/// A write to a register other than the bank selector is two events, one of
/// them a register write.
pub proof fn lemma_single_register_write(address: u8, bank: u8, register: u8, value: u8)
    requires
        register != BANK_ADDRESS,
    ensures
        register_write(address, bank, register, value).len() == 2,
        register_writes(register_write(address, bank, register, value)) == 1,
{
    let select = bank_select(address, bank);
    let pair = BusEvent::Write { address, bytes: seq![register, value] };
    lemma_register_writes_push(Seq::empty(), select[0]);
    lemma_register_writes_push(select, pair);
}

} // verus!
