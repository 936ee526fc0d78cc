use std::cell::RefCell;
use std::rc::Rc;

use airlog::peripherals::bus::{DelayMs, I2cBus};
use airlog::peripherals::sgp40::{
    create_measurement_command, decode_raw_signal, voc_index, DEFAULT_MEASUREMENT_COMMAND, SGP40,
};
use gas_index_algorithm::{AlgorithmType, GasIndexAlgorithm};

#[derive(Debug, Clone, PartialEq)]
enum Transfer {
    Write(u8, Vec<u8>),
    Delay(u8),
    Read(u8, usize),
}

#[derive(Default)]
struct Wire {
    transfers: Vec<Transfer>,
    response: Vec<u8>,
    fail_write: bool,
    fail_read: bool,
}

struct FakeBus(Rc<RefCell<Wire>>);

impl I2cBus for FakeBus {
    type Error = &'static str;

    fn write(&mut self, address: u8, bytes: &[u8]) -> Result<(), Self::Error> {
        let mut wire = self.0.borrow_mut();
        wire.transfers.push(Transfer::Write(address, bytes.to_vec()));
        if wire.fail_write {
            Err("write")
        } else {
            Ok(())
        }
    }

    fn read(&mut self, address: u8, buffer: &mut [u8]) -> Result<(), Self::Error> {
        let mut wire = self.0.borrow_mut();
        wire.transfers.push(Transfer::Read(address, buffer.len()));
        if wire.fail_read {
            return Err("read");
        }
        for (place, byte) in buffer.iter_mut().zip(wire.response.iter()) {
            *place = *byte;
        }
        Ok(())
    }
}

struct FakeDelay(Rc<RefCell<Wire>>);

impl DelayMs for FakeDelay {
    fn delay_ms(&mut self, ms: u8) {
        self.0.borrow_mut().transfers.push(Transfer::Delay(ms));
    }
}

fn sensor(response: &[u8]) -> (SGP40<FakeBus>, FakeDelay, Rc<RefCell<Wire>>) {
    let wire = Rc::new(RefCell::new(Wire { response: response.to_vec(), ..Wire::default() }));
    let filter = GasIndexAlgorithm::new(AlgorithmType::Voc, 1.0);
    (SGP40::new(FakeBus(wire.clone()), filter), FakeDelay(wire.clone()), wire)
}

#[test]
fn generate_command() {
    let generated_command = create_measurement_command(25, 50);
    assert_eq!(generated_command, DEFAULT_MEASUREMENT_COMMAND);
    assert_eq!(generated_command, [0x26, 0x0f, 0x80, 0x00, 0xa2, 0x66, 0x66, 0x93]);
}

#[test]
fn commands_at_the_ends_of_the_domains() {
    assert_eq!(
        create_measurement_command(-45, 0),
        [0x26, 0x0f, 0x00, 0x00, 0x81, 0x00, 0x00, 0x81]
    );
    assert_eq!(
        create_measurement_command(130, 100),
        [0x26, 0x0f, 0xff, 0xff, 0xac, 0xff, 0xff, 0xac]
    );
    assert_eq!(
        create_measurement_command(21, 43),
        [0x26, 0x0f, 0x6e, 0x14, 0x3e, 0x60, 0x8c, 0xd3]
    );
}

#[test]
fn commands_outside_the_domains_saturate() {
    assert_eq!(create_measurement_command(-100, 200), create_measurement_command(-45, 100));
    assert_eq!(create_measurement_command(i16::MAX, 101), create_measurement_command(130, 100));
    assert_eq!(
        create_measurement_command(-100, 200),
        [0x26, 0x0f, 0xff, 0xff, 0xac, 0x00, 0x00, 0x81]
    );
}

#[test]
fn raw_signal_is_the_first_word() {
    assert_eq!(decode_raw_signal(&[0x05, 0x39, 0x00]), 1337);
    assert_eq!(decode_raw_signal(&[0x75, 0x30, 0xff]), 30000);
    assert_eq!(decode_raw_signal(&[0xff, 0xff, 0xac]), 65535);
}

#[test]
fn raw_signal_is_measured() {
    let (mut sgp40, mut delay, wire) = sensor(&[0x75, 0x30, 0x00]);
    assert_eq!(sgp40.measure_raw_signal_compensated(25, 50, &mut delay), Ok(30000));
    assert_eq!(
        wire.borrow().transfers,
        vec![
            Transfer::Write(0x59, vec![0x26, 0x0f, 0x80, 0x00, 0xa2, 0x66, 0x66, 0x93]),
            Transfer::Delay(30),
            Transfer::Read(0x59, 3),
        ]
    );
    assert_eq!(sgp40.samples_processed(), 0);
}

#[test]
fn a_failed_measurement_write_ends_it() {
    let (mut sgp40, mut delay, wire) = sensor(&[0x75, 0x30, 0x00]);
    wire.borrow_mut().fail_write = true;
    assert_eq!(sgp40.measure_raw_signal_compensated(25, 50, &mut delay), Err("write"));
    assert_eq!(sgp40.measure_signal_compensated(25, 50, &mut delay), Err("write"));
    assert_eq!(wire.borrow().transfers.len(), 2);
    assert!(wire.borrow().transfers.iter().all(|t| matches!(t, Transfer::Write(0x59, _))));
    assert_eq!(sgp40.samples_processed(), 0);
}

#[test]
fn a_failed_measurement_read_is_reported_and_not_retried() {
    let (mut sgp40, mut delay, wire) = sensor(&[0x75, 0x30, 0x00]);
    wire.borrow_mut().fail_read = true;
    assert_eq!(sgp40.measure_signal_compensated(21, 43, &mut delay), Err("read"));
    assert_eq!(
        wire.borrow().transfers,
        vec![
            Transfer::Write(0x59, vec![0x26, 0x0f, 0x6e, 0x14, 0x3e, 0x60, 0x8c, 0xd3]),
            Transfer::Delay(30),
            Transfer::Read(0x59, 3),
        ]
    );
    assert_eq!(sgp40.samples_processed(), 0);
}

#[test]
fn another_sensor_address() {
    let wire = Rc::new(RefCell::new(Wire { response: vec![0x05, 0x39, 0x00], ..Wire::default() }));
    let filter = GasIndexAlgorithm::new(AlgorithmType::Voc, 1.0);
    let mut sgp40 = SGP40::with_address(FakeBus(wire.clone()), 0x5a, filter);
    let mut delay = FakeDelay(wire.clone());
    assert_eq!(sgp40.measure_raw_signal_compensated(25, 50, &mut delay), Ok(1337));
    assert_eq!(
        wire.borrow().transfers,
        vec![
            Transfer::Write(0x5a, DEFAULT_MEASUREMENT_COMMAND.to_vec()),
            Transfer::Delay(30),
            Transfer::Read(0x5a, 3),
        ]
    );
}

#[test]
fn the_filter_is_silent_until_it_has_warmed_up() {
    let (mut sgp40, mut delay, _) = sensor(&[0x05, 0x39, 0x00]);
    assert!(!sgp40.warmed_up());
    for done in 0..45 {
        assert_eq!(sgp40.samples_processed(), done);
        assert!(!sgp40.warmed_up());
        assert_eq!(sgp40.measure_signal_compensated(25, 50, &mut delay), Ok(0));
    }
    assert_eq!(sgp40.samples_processed(), 45);
    assert!(sgp40.warmed_up());
}

#[test]
fn a_steady_signal_settles_at_the_average_index() {
    let (mut sgp40, mut delay, wire) = sensor(&[0x05, 0x39, 0x00]);
    for _ in 0..200 {
        let index = sgp40.measure_signal_compensated(25, 50, &mut delay).unwrap();
        assert!(index <= 500);
    }
    assert_eq!(sgp40.measure_signal_compensated(25, 50, &mut delay), Ok(100));
    assert_eq!(sgp40.samples_processed(), 201);
    assert_eq!(wire.borrow().transfers.len(), 3 * 201);
}

#[test]
fn the_filter_follows_the_signal() {
    let (mut sgp40, mut delay, wire) = sensor(&[0x75, 0x30, 0x00]);
    for _ in 0..300 {
        sgp40.measure_signal_compensated(25, 50, &mut delay).unwrap();
    }
    wire.borrow_mut().response = vec![0x6d, 0x60, 0x00];
    let mut last = 0;
    for _ in 0..10 {
        last = sgp40.measure_signal_compensated(25, 50, &mut delay).unwrap();
    }
    assert!(last > 100 && last <= 500, "index {last}");
}

#[test]
fn filter_answers_become_indices() {
    assert_eq!(voc_index(0), 0);
    assert_eq!(voc_index(1), 1);
    assert_eq!(voc_index(100), 100);
    assert_eq!(voc_index(500), 500);
    assert_eq!(voc_index(65535), 65535);
    assert_eq!(voc_index(65536), 0);
    assert_eq!(voc_index(65537), 1);
    assert_eq!(voc_index(-1), 65535);
    assert_eq!(voc_index(-65536), 0);
    assert_eq!(voc_index(i32::MAX), 65535);
    assert_eq!(voc_index(i32::MIN), 0);
    for answer in [-70000, -65537, -3, 0, 7, 70000, 1 << 20] {
        assert_eq!(voc_index(answer), answer as u16);
    }
}
