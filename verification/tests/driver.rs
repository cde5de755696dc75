use is31fl3731::addresses;
use is31fl3731::bus::{Bus, BusFault, RecordingBus, Traced, Transaction, Transport};
use is31fl3731::devices::{CharlieBonnet, Matrix};
use is31fl3731::{Error, IS31FL3731};

fn write(address: u8, bytes: &[u8]) -> Transaction {
    Transaction::Write { address, bytes: bytes.to_vec() }
}

fn refused(address: u8, bytes: &[u8]) -> Transaction {
    Transaction::Refused { address, bytes: bytes.to_vec() }
}

fn register(address: u8, bank: u8, register: u8, value: u8) -> Vec<Transaction> {
    vec![write(address, &[0xFD, bank]), write(address, &[register, value])]
}

fn row(address: u8, index: u8, brightness: u8) -> Transaction {
    let mut bytes = vec![brightness; 25];
    bytes[0] = 0x24 + index * 24;
    Transaction::Write { address, bytes }
}

fn fill_log(address: u8, brightness: u8, blink: Option<bool>, frame: u8) -> Vec<Transaction> {
    let mut log = vec![write(address, &[0xFD, frame])];
    for index in 0..6 {
        log.push(row(address, index, brightness));
    }
    if let Some(on) = blink {
        for col in 0..18 {
            log.extend(register(address, frame, 0x12 + col, if on { 0xFF } else { 0x00 }));
        }
    }
    log
}

fn setup_log(address: u8) -> Vec<Transaction> {
    let mut log = register(address, 0x0B, 0x0A, 0);
    log.push(Transaction::Delay { ms: 10 });
    log.extend(register(address, 0x0B, 0x00, 0x00));
    log.extend(register(address, 0x0B, 0x01, 0));
    for frame in 0..8 {
        log.extend(fill_log(address, 0, Some(false), frame));
        for col in 0..18 {
            log.extend(register(address, frame, col, 0xFF));
        }
    }
    log.extend(register(address, 0x0B, 0x06, 0));
    log.extend(register(address, 0x0B, 0x0A, 1));
    log
}

fn is_register_write(entry: &Transaction) -> bool {
    match entry {
        Transaction::Write { bytes, .. } => bytes.len() >= 2 && bytes[0] != 0xFD,
        _ => false,
    }
}

fn matrix() -> IS31FL3731<RecordingBus, Matrix> {
    Matrix::configure(RecordingBus::new())
}

/// The registers of a chip at `address` after `log`, by bank and register.
fn replay(address: u8, log: &[Transaction]) -> Vec<Vec<u8>> {
    let mut cells = vec![vec![0xAAu8; 256]; 256];
    let mut bank = 0usize;
    for entry in log {
        if let Transaction::Write { address: to, bytes } = entry {
            if *to != address || bytes.len() < 2 {
                continue;
            }
            if bytes[0] == 0xFD {
                bank = bytes[1] as usize;
            } else {
                for (i, value) in bytes[1..].iter().enumerate() {
                    cells[bank][bytes[0] as usize + i] = *value;
                }
            }
        }
    }
    cells
}

#[test]
fn register_map_has_the_documented_values() {
    assert_eq!(addresses::MODE_REGISTER, 0x00);
    assert_eq!(addresses::FRAME, 0x01);
    assert_eq!(addresses::AUTOPLAY1, 0x02);
    assert_eq!(addresses::AUTOPLAY2, 0x03);
    assert_eq!(addresses::BLINK, 0x05);
    assert_eq!(addresses::AUDIOSYNC, 0x06);
    assert_eq!(addresses::BREATH1, 0x08);
    assert_eq!(addresses::BREATH2, 0x09);
    assert_eq!(addresses::SHUTDOWN, 0x0A);
    assert_eq!(addresses::GAIN, 0x0B);
    assert_eq!(addresses::ADC, 0x0C);
    assert_eq!(addresses::CONFIG_BANK, 0x0B);
    assert_eq!(addresses::BANK_ADDRESS, 0xFD);
    assert_eq!(addresses::PICTURE_MODE, 0x00);
    assert_eq!(addresses::AUTOPLAY_MODE, 0x08);
    assert_eq!(addresses::AUDIOPLAY_MODE, 0x18);
    assert_eq!(addresses::ENABLE_OFFSET, 0x00);
    assert_eq!(addresses::BLINK_OFFSET, 0x12);
    assert_eq!(addresses::COLOR_OFFSET, 0x24);
}

#[test]
fn bank_sends_the_bank_select_pair() {
    let mut ic = matrix();
    assert!(ic.bank(3).is_ok());
    assert_eq!(ic.i2c.log, vec![write(0x74, &[0xFD, 3])]);
}

#[test]
fn write_register_selects_the_bank_then_sends_the_pair() {
    let mut ic = matrix();
    assert!(ic.write_register(5, 0x30, 0x7F).is_ok());
    assert_eq!(ic.i2c.log, vec![write(0x74, &[0xFD, 5]), write(0x74, &[0x30, 0x7F])]);
}

#[test]
fn write_register_stops_when_the_bank_select_fails() {
    let mut ic = Matrix::configure(RecordingBus::with_budget(0));
    assert_eq!(ic.write_register(5, 0x30, 0x7F), Err(BusFault));
    assert_eq!(ic.i2c.log, vec![refused(0x74, &[0xFD, 5])]);
}

#[test]
fn write_register_reports_a_failed_pair() {
    let mut ic = Matrix::configure(RecordingBus::with_budget(1));
    assert_eq!(ic.write_register(5, 0x30, 0x7F), Err(BusFault));
    assert_eq!(ic.i2c.log, vec![write(0x74, &[0xFD, 5]), refused(0x74, &[0x30, 0x7F])]);
}

#[test]
fn sleep_writes_the_shutdown_register() {
    let mut ic = matrix();
    assert!(ic.sleep(true).is_ok());
    assert_eq!(ic.i2c.log, register(0x74, 0x0B, 0x0A, 0));
    let mut ic = matrix();
    assert!(ic.sleep(false).is_ok());
    assert_eq!(ic.i2c.log, register(0x74, 0x0B, 0x0A, 1));
}

#[test]
fn mode_writes_the_mode_register() {
    let mut ic = matrix();
    assert!(ic.mode(addresses::AUDIOPLAY_MODE).is_ok());
    assert_eq!(ic.i2c.log, register(0x74, 0x0B, 0x00, 0x18));
}

#[test]
fn audio_sync_writes_the_audio_sync_register() {
    let mut ic = matrix();
    assert!(ic.audio_sync(true).is_ok());
    assert_eq!(ic.i2c.log, register(0x74, 0x0B, 0x06, 1));
    let mut ic = matrix();
    assert!(ic.audio_sync(false).is_ok());
    assert_eq!(ic.i2c.log, register(0x74, 0x0B, 0x06, 0));
}

#[test]
fn set_address_redirects_later_writes_only() {
    let mut ic = matrix();
    assert!(ic.sleep(true).is_ok());
    ic.set_address(0x75);
    assert_eq!(ic.address, 0x75);
    assert_eq!(ic.i2c.log, register(0x74, 0x0B, 0x0A, 0));
    assert!(ic.sleep(false).is_ok());
    let mut expected = register(0x74, 0x0B, 0x0A, 0);
    expected.extend(register(0x75, 0x0B, 0x0A, 1));
    assert_eq!(ic.i2c.log, expected);
}

#[test]
fn frame_accepts_every_index_up_to_eight() {
    for n in 0..=8u8 {
        let mut ic = matrix();
        assert!(ic.frame(n).is_ok());
        assert_eq!(ic.frame, n);
        assert_eq!(ic.i2c.log, register(0x74, 0x0B, 0x01, n));
    }
}

#[test]
fn frame_above_eight_is_refused_and_changes_nothing() {
    for n in [9u8, 10, 200, 255] {
        let mut ic = matrix();
        assert!(ic.frame(4).is_ok());
        let before = ic.i2c.log.clone();
        assert!(matches!(ic.frame(n), Err(Error::InvalidLocation(v)) if v == n));
        assert_eq!(ic.frame, 4);
        assert_eq!(ic.i2c.log, before);
    }
}

#[test]
fn frame_keeps_the_new_index_when_the_bus_fails() {
    let mut ic = Matrix::configure(RecordingBus::with_budget(0));
    assert!(matches!(ic.frame(2), Err(Error::I2cError(BusFault))));
    assert_eq!(ic.frame, 2);
    assert_eq!(ic.i2c.log, vec![refused(0x74, &[0xFD, 0x0B])]);
}

#[test]
fn pixel_on_the_boundary_of_a_16_by_8_matrix_is_written() {
    let mut ic = matrix();
    ic.height = 8;
    assert!(ic.pixel(16, 8, 255).is_ok());
    assert_eq!(ic.i2c.log, register(0x74, 0, 0x24 + 144, 255));
}

#[test]
fn pixel_beyond_the_width_is_refused() {
    let mut ic = matrix();
    ic.height = 8;
    assert!(matches!(ic.pixel(17, 0, 255), Err(Error::InvalidLocation(17))));
    assert!(ic.i2c.log.is_empty());
}

#[test]
fn pixel_beyond_the_height_is_refused() {
    let mut ic = matrix();
    ic.height = 8;
    assert!(matches!(ic.pixel(3, 9, 255), Err(Error::InvalidLocation(9))));
    assert!(ic.i2c.log.is_empty());
}

#[test]
fn pixel_reports_the_column_when_both_are_out_of_range() {
    let mut ic = matrix();
    assert!(matches!(ic.pixel(40, 50, 1), Err(Error::InvalidLocation(40))));
    assert!(ic.i2c.log.is_empty());
}

#[test]
fn pixel_writes_into_the_active_frame() {
    let mut ic = matrix();
    assert!(ic.frame(3).is_ok());
    assert!(ic.pixel(2, 1, 77).is_ok());
    let mut expected = register(0x74, 0x0B, 0x01, 3);
    expected.extend(register(0x74, 3, 0x24 + 18, 77));
    assert_eq!(ic.i2c.log, expected);
}

#[test]
fn pixel_passes_a_bus_error_on() {
    let mut ic = Matrix::configure(RecordingBus::with_budget(1));
    assert!(matches!(ic.pixel(0, 0, 9), Err(Error::I2cError(BusFault))));
    assert_eq!(ic.i2c.log, vec![write(0x74, &[0xFD, 0]), refused(0x74, &[0x24, 9])]);
}

#[test]
fn every_pixel_of_the_bonnet_can_be_set() {
    let mut ic = CharlieBonnet::configure(RecordingBus::new());
    for x in 0..16 {
        for y in 0..8 {
            assert!(ic.pixel(x, y, 1).is_ok());
        }
    }
    assert_eq!(ic.i2c.log.len(), 2 * 16 * 8);
    let cells = replay(0x74, &ic.i2c.log);
    let lit = cells[0][0x24..0x24 + 144].iter().filter(|value| **value == 1).count();
    assert_eq!(lit, 128);
}

#[test]
fn fill_without_blink_writes_six_rows() {
    let mut ic = matrix();
    assert!(ic.fill(10, None, 2).is_ok());
    assert_eq!(ic.i2c.log.len(), 7);
    assert_eq!(ic.i2c.log[0], write(0x74, &[0xFD, 2]));
    for index in 0..6usize {
        match &ic.i2c.log[1 + index] {
            Transaction::Write { address, bytes } => {
                assert_eq!(*address, 0x74);
                assert_eq!(bytes.len(), 25);
                assert_eq!(bytes[0], 0x24 + 24 * index as u8);
                assert!(bytes[1..].iter().all(|value| *value == 10));
            }
            other => panic!("row {} is {:?}", index, other),
        }
    }
    assert_eq!(ic.i2c.log.iter().filter(|entry| is_register_write(entry)).count(), 6);
}

#[test]
fn fill_with_blink_on_adds_eighteen_writes_of_ff() {
    let mut ic = matrix();
    assert!(ic.fill(200, Some(true), 7).is_ok());
    assert_eq!(ic.i2c.log.len(), 7 + 36);
    assert_eq!(ic.i2c.log[..7], fill_log(0x74, 200, None, 7)[..]);
    for col in 0..18usize {
        assert_eq!(ic.i2c.log[7 + 2 * col], write(0x74, &[0xFD, 7]));
        assert_eq!(ic.i2c.log[8 + 2 * col], write(0x74, &[0x12 + col as u8, 0xFF]));
    }
    assert_eq!(ic.i2c.log.iter().filter(|entry| is_register_write(entry)).count(), 24);
}

#[test]
fn fill_with_blink_off_adds_eighteen_writes_of_zero() {
    let mut ic = matrix();
    assert!(ic.fill(1, Some(false), 0).is_ok());
    assert_eq!(ic.i2c.log, fill_log(0x74, 1, Some(false), 0));
    assert_eq!(ic.i2c.log[8], write(0x74, &[0x12, 0x00]));
    assert_eq!(ic.i2c.log[42], write(0x74, &[0x23, 0x00]));
}

#[test]
fn fill_leaves_the_active_frame_alone() {
    let mut ic = matrix();
    assert!(ic.frame(5).is_ok());
    assert!(ic.fill(3, None, 1).is_ok());
    assert_eq!(ic.frame, 5);
}

#[test]
fn fill_breaks_off_at_the_row_that_fails() {
    let mut ic = Matrix::configure(RecordingBus::with_budget(3));
    assert_eq!(ic.fill(10, Some(true), 2), Err(BusFault));
    let mut expected = fill_log(0x74, 10, None, 2)[..3].to_vec();
    let mut bytes = vec![10u8; 25];
    bytes[0] = 0x24 + 48;
    expected.push(Transaction::Refused { address: 0x74, bytes });
    assert_eq!(ic.i2c.log, expected);
}

#[test]
fn fill_breaks_off_within_the_blink_plane() {
    let mut ic = Matrix::configure(RecordingBus::with_budget(10));
    assert_eq!(ic.fill(10, Some(true), 2), Err(BusFault));
    let mut expected = fill_log(0x74, 10, Some(true), 2)[..10].to_vec();
    expected.push(refused(0x74, &[0x13, 0xFF]));
    assert_eq!(ic.i2c.log, expected);
}

#[test]
fn write_plane_writes_eighteen_registers() {
    let mut ic = matrix();
    assert!(ic.write_plane(4, 0x00, 0xFF).is_ok());
    let mut expected = Vec::new();
    for col in 0..18 {
        expected.extend(register(0x74, 4, col, 0xFF));
    }
    assert_eq!(ic.i2c.log, expected);
}

#[test]
fn reset_sleeps_waits_and_wakes() {
    let mut ic = matrix();
    assert!(ic.reset().is_ok());
    let mut expected = register(0x74, 0x0B, 0x0A, 0);
    expected.push(Transaction::Delay { ms: 10 });
    expected.extend(register(0x74, 0x0B, 0x0A, 1));
    assert_eq!(ic.i2c.log, expected);
}

#[test]
fn reset_does_not_wait_when_sleep_fails() {
    let mut ic = Matrix::configure(RecordingBus::with_budget(1));
    assert_eq!(ic.reset(), Err(BusFault));
    assert_eq!(ic.i2c.log, vec![write(0x74, &[0xFD, 0x0B]), refused(0x74, &[0x0A, 0])]);
}

#[test]
fn setup_issues_the_documented_sequence() {
    let mut ic = matrix();
    assert!(ic.frame(6).is_ok());
    ic.i2c.log.clear();
    assert!(ic.setup().is_ok());
    assert_eq!(ic.frame, 0);
    assert_eq!(ic.i2c.log.len(), 643);
    assert_eq!(ic.i2c.log, setup_log(0x74));
    assert_eq!(ic.i2c.log[2], Transaction::Delay { ms: 10 });
    assert_eq!(
        ic.i2c.log.iter().filter(|entry| is_register_write(entry)).count(),
        1 + 1 + 1 + 8 * (6 + 18 + 18) + 1 + 1
    );
}

#[test]
fn setup_breaks_off_wherever_the_bus_fails() {
    let whole = setup_log(0x74);
    for budget in [0usize, 1, 3, 4, 5, 6, 7, 8, 50, 86, 300, 638, 640, 642] {
        let mut ic = Matrix::configure(RecordingBus::with_budget(budget));
        ic.frame = 6;
        assert!(matches!(ic.setup(), Err(Error::I2cError(BusFault))));
        assert_eq!(ic.i2c.log.len(), budget + 1);
        assert_eq!(ic.i2c.log[..budget], whole[..budget]);
        match (&ic.i2c.log[budget], &whole[budget]) {
            (
                Transaction::Refused { address, bytes },
                Transaction::Write { address: to, bytes: planned },
            ) => {
                assert_eq!(address, to);
                assert_eq!(bytes, planned);
            }
            other => panic!("budget {}: {:?}", budget, other),
        }
        assert_eq!(ic.frame, if budget >= 5 { 0 } else { 6 });
    }
}

#[test]
fn setup_gets_past_the_delay_on_a_budget_of_two() {
    let mut ic = Matrix::configure(RecordingBus::with_budget(2));
    assert!(matches!(ic.setup(), Err(Error::I2cError(BusFault))));
    assert_eq!(
        ic.i2c.log,
        vec![
            write(0x74, &[0xFD, 0x0B]),
            write(0x74, &[0x0A, 0]),
            Transaction::Delay { ms: 10 },
            refused(0x74, &[0xFD, 0x0B]),
        ]
    );
}

#[test]
fn setup_leaves_every_frame_dark_and_enabled() {
    let mut ic = matrix();
    assert!(ic.setup().is_ok());
    let cells = replay(0x74, &ic.i2c.log);
    for frame in 0..8 {
        assert!(cells[frame][0x00..0x12].iter().all(|value| *value == 0xFF));
        assert!(cells[frame][0x12..0x24].iter().all(|value| *value == 0x00));
        assert!(cells[frame][0x24..0x24 + 144].iter().all(|value| *value == 0x00));
    }
    assert_eq!(cells[0x0B][0x0A], 1);
    assert_eq!(cells[0x0B][0x00], 0x00);
    assert_eq!(cells[0x0B][0x01], 0);
    assert_eq!(cells[0x0B][0x06], 0);
}

#[test]
fn color_planes_read_back_as_last_filled() {
    let mut ic = matrix();
    assert!(ic.setup().is_ok());
    assert!(ic.fill(10, None, 0).is_ok());
    assert!(ic.fill(20, Some(true), 3).is_ok());
    assert!(ic.fill(30, None, 0).is_ok());
    assert!(ic.fill(40, Some(false), 7).is_ok());
    let cells = replay(0x74, &ic.i2c.log);
    let expected = [30u8, 0, 0, 20, 0, 0, 0, 40];
    for frame in 0..8 {
        assert!(cells[frame][0x24..0x24 + 144].iter().all(|value| *value == expected[frame]));
    }
    assert!(cells[3][0x12..0x24].iter().all(|value| *value == 0xFF));
    assert!(cells[0][0x12..0x24].iter().all(|value| *value == 0x00));
}

#[test]
fn bus_errors_convert_into_the_driver_error() {
    assert!(matches!(Error::from(BusFault), Error::I2cError(BusFault)));
}

#[test]
fn recording_bus_counts_refused_writes_against_the_budget() {
    let mut bus = RecordingBus::with_budget(1);
    assert_eq!(bus.write(0x10, &[1, 2, 3]), Ok(()));
    bus.delay_ms(5);
    assert_eq!(bus.write(0x10, &[4]), Err(BusFault));
    assert_eq!(bus.write(0x10, &[5]), Err(BusFault));
    assert_eq!(
        bus.log,
        vec![
            write(0x10, &[1, 2, 3]),
            Transaction::Delay { ms: 5 },
            refused(0x10, &[4]),
            refused(0x10, &[5]),
        ]
    );
    assert_eq!(bus.budget, 1);
}

/// A transport that keeps what it is sent and fails the writes whose
/// number, counted from zero, is in `failing`.
struct Wire {
    sent: Vec<(u8, Vec<u8>)>,
    pauses: Vec<u8>,
    failing: Vec<usize>,
}

impl Transport for Wire {
    type Error = usize;

    fn write(&mut self, address: u8, bytes: &[u8]) -> Result<(), usize> {
        let number = self.sent.len();
        self.sent.push((address, bytes.to_vec()));
        if self.failing.contains(&number) {
            Err(number)
        } else {
            Ok(())
        }
    }

    fn delay_ms(&mut self, ms: u8) {
        self.pauses.push(ms);
    }
}

#[test]
fn traced_transport_gets_every_call_as_it_comes() {
    let wire = Wire { sent: Vec::new(), pauses: Vec::new(), failing: Vec::new() };
    let mut ic = Matrix::configure(Traced::new(wire));
    assert!(ic.reset().is_ok());
    assert!(ic.pixel(1, 1, 50).is_ok());
    let wire = ic.i2c.release();
    assert_eq!(
        wire.sent,
        vec![
            (0x74, vec![0xFD, 0x0B]),
            (0x74, vec![0x0A, 0]),
            (0x74, vec![0xFD, 0x0B]),
            (0x74, vec![0x0A, 1]),
            (0x74, vec![0xFD, 0]),
            (0x74, vec![0x24 + 17, 50]),
        ]
    );
    assert_eq!(wire.pauses, vec![10]);
}

#[test]
fn traced_transport_passes_its_error_on() {
    let wire = Wire { sent: Vec::new(), pauses: Vec::new(), failing: vec![3] };
    let mut ic = Matrix::configure(Traced::new(wire));
    assert!(matches!(ic.setup(), Err(Error::I2cError(3))));
    let wire = ic.i2c.release();
    assert_eq!(wire.sent.len(), 4);
    assert_eq!(wire.sent[3], (0x74, vec![0x00, 0x00]));
    assert_eq!(wire.pauses, vec![10]);
}

#[test]
fn write_plane_row_sends_the_row_as_one_block() {
    let mut ic = matrix();
    let mut values = [0u8; 24];
    for (i, value) in values.iter_mut().enumerate() {
        *value = i as u8 + 1;
    }
    assert!(ic.write_plane_row(2, 0x3C, &values).is_ok());
    let mut bytes = vec![0x3C];
    bytes.extend_from_slice(&values);
    assert_eq!(bytes.len(), 25);
    assert_eq!(
        ic.i2c.log,
        vec![write(0x74, &[0xFD, 2]), Transaction::Write { address: 0x74, bytes }]
    );
    let cells = replay(0x74, &ic.i2c.log);
    assert_eq!(cells[2][0x3C..0x3C + 24], values[..]);
}

#[test]
fn write_plane_row_breaks_off_at_the_block() {
    let mut ic = Matrix::configure(RecordingBus::with_budget(1));
    assert_eq!(ic.write_plane_row(2, 0x24, &[7u8; 24]), Err(BusFault));
    let mut bytes = vec![7u8; 25];
    bytes[0] = 0x24;
    assert_eq!(
        ic.i2c.log,
        vec![write(0x74, &[0xFD, 2]), Transaction::Refused { address: 0x74, bytes }]
    );
}
