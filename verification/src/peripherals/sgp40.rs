//! Driver for the volatile-organic-compound sensor.
//!
//! The sensor measures a raw signal, compensated for the temperature and
//! humidity that the command carries. An adaptive filter outside this
//! library turns the raw signals of a session into the VOC index; the driver
//! feeds it one signal per measurement and counts the signals fed, because
//! the filter answers zero until it has warmed up.

use vstd::prelude::*;
use crate::peripherals::bus::{
    last_read, query_failed, query_succeeded, DelayMs, Device, I2cBus, Transfer,
};
use crate::wire::checksum::{checksum_of, crc8_byte, lemma_checksum_of_word};
use crate::wire::frame::{
    checked_word, checksums_hold, from_be_bytes, lemma_checked_word_holds, to_be_bytes, word_bytes,
    word_checksum, word_of,
};
use crate::logic::ticks::{
    humidity_ticks, humidity_to_ticks, temperature_ticks, temperature_to_ticks,
};

verus! {

/// The bus address of the sensor.
pub const DEFAULT_ADDRESS: u8 = 0x59;

/// Command code: measure the raw signal, compensated.
pub const MEASURE_RAW_SIGNAL: u16 = 0x260f;

/// Milliseconds that the sensor takes to measure.
pub const MEASUREMENT_DELAY_MS: u8 = 30;

/// The measurement command for 25 degrees Celsius and 50 percent relative
/// humidity, which the sensor also assumes when it is not told.
pub const DEFAULT_MEASUREMENT_COMMAND: [u8; 8] = [0x26, 0x0f, 0x80, 0x00, 0xa2, 0x66, 0x66, 0x93];

/// Signals that the gas index filter takes in before its answers count.
/// At one signal a second it answers zero for that long.
pub const WARM_UP_SAMPLES: u32 = 45;

/// `gas_index_algorithm::GasIndexAlgorithm`, the adaptive filter, of whose
/// state nothing is known.
#[verifier::external_type_specification]
#[verifier::external_body]
pub struct ExGasIndexAlgorithm(gas_index_algorithm::GasIndexAlgorithm);

/// Feeds one raw signal to `gas_index_algorithm::GasIndexAlgorithm::process`
/// and returns the gas index that it answers.
///
/// Trusted, and nothing is claimed of the answer: it depends on every
/// signal that the filter has seen and on the sampling interval that it
/// was made with.
#[verifier::external_body]
fn gas_index(filter: &mut gas_index_algorithm::GasIndexAlgorithm, raw: i32) -> (index: i32) {
    filter.process(raw)
}

/// The measurement command for a temperature in degrees Celsius and a
/// relative humidity in percent: the command code, then the humidity in
/// ticks over `[0, 100]` and the temperature in ticks over `[-45, 130]`,
/// each followed by its checksum.
pub open spec fn measurement_frame(temperature: i16, humidity: u8) -> Seq<u8> {
    word_bytes(MEASURE_RAW_SIGNAL) + checked_word(humidity_ticks(humidity as int) as u16)
        + checked_word(temperature_ticks(temperature as int) as u16)
}

/// The raw signal that a 3-byte response carries.
pub open spec fn raw_signal_of(response: Seq<u8>) -> u16
    recommends
        response.len() == 3,
{
    word_of(response[0], response[1])
}

/// The VOC index that stands for an answer of the gas index filter: its
/// low sixteen bits. An answer from 0 to 65535 stands for itself.
pub open spec fn voc_index_of(answer: i32) -> int {
    answer as int % 0x1_0000
}

/// A measurement command is eight bytes long, starts with the command
/// code, and carries after it two words with their own checksums.
pub proof fn lemma_measurement_frame(temperature: i16, humidity: u8)
    ensures
        measurement_frame(temperature, humidity).len() == 8,
        measurement_frame(temperature, humidity).subrange(0, 2) == word_bytes(MEASURE_RAW_SIGNAL),
        checksums_hold(measurement_frame(temperature, humidity).subrange(2, 8)),
{
    let frame = measurement_frame(temperature, humidity);
    let humidity_word = humidity_ticks(humidity as int) as u16;
    let temperature_word = temperature_ticks(temperature as int) as u16;
    lemma_checked_word_holds(humidity_word);
    lemma_checked_word_holds(temperature_word);
    assert(frame.subrange(0, 2) =~= word_bytes(MEASURE_RAW_SIGNAL));
    let rest = frame.subrange(2, 8);
    assert(rest =~= checked_word(humidity_word) + checked_word(temperature_word));
    assert forall|k: int| 0 <= k < rest.len() / 3 implies #[trigger] rest[3 * k + 2] == checksum_of(
        seq![rest[3 * k], rest[3 * k + 1]],
    ) by {
        if k == 0 {
            assert(seq![rest[0], rest[1]] =~= word_bytes(humidity_word));
        } else {
            assert(k == 1);
            assert(seq![rest[3], rest[4]] =~= word_bytes(temperature_word));
        }
    }
}

/// The command for 25 degrees and 50 percent is the default command.
pub proof fn lemma_default_measurement_frame()
    ensures
        measurement_frame(25, 50) == DEFAULT_MEASUREMENT_COMMAND@,
{
    let humidity = checked_word(humidity_ticks(50) as u16);
    assert(humidity =~= seq![0x80u8, 0x00u8, 0xa2u8]) by {
        assert(humidity_ticks(50) == 32768);
        assert(word_bytes(32768) =~= seq![0x80u8, 0x00u8]);
        lemma_checksum_of_word(0x80, 0x00);
        assert(crc8_byte(0xffu8 ^ 0x80u8, 0x31) == 0xd6u8) by (bit_vector);
        assert(crc8_byte(0xd6u8 ^ 0x00u8, 0x31) == 0xa2u8) by (bit_vector);
    }
    let temperature = checked_word(temperature_ticks(25) as u16);
    assert(temperature =~= seq![0x66u8, 0x66u8, 0x93u8]) by {
        assert(temperature_ticks(25) == 26214);
        assert(word_bytes(26214) =~= seq![0x66u8, 0x66u8]);
        lemma_checksum_of_word(0x66, 0x66);
        assert(crc8_byte(0xffu8 ^ 0x66u8, 0x31) == 0xb1u8) by (bit_vector);
        assert(crc8_byte(0xb1u8 ^ 0x66u8, 0x31) == 0x93u8) by (bit_vector);
    }
    let code = word_bytes(MEASURE_RAW_SIGNAL);
    assert(code =~= seq![0x26u8, 0x0fu8]);
    assert(code + humidity + temperature =~= DEFAULT_MEASUREMENT_COMMAND@);
}

/// Builds the 8-byte measurement command. A temperature or humidity
/// outside its domain enters as the nearest end of the domain.
pub fn create_measurement_command(temperature: i16, humidity: u8) -> (frame: [u8; 8])
    ensures
        frame@ == measurement_frame(temperature, humidity),
        temperature == 25 && humidity == 50 ==> frame@ == DEFAULT_MEASUREMENT_COMMAND@,
{
    proof {
        lemma_default_measurement_frame();
    }
    let code: [u8; 2] = to_be_bytes(MEASURE_RAW_SIGNAL);
    let humidity_ticks: u16 = humidity_to_ticks(humidity);
    let humidity_bytes: [u8; 2] = to_be_bytes(humidity_ticks);
    let temperature_ticks: u16 = temperature_to_ticks(temperature);
    let temperature_bytes: [u8; 2] = to_be_bytes(temperature_ticks);
    let frame: [u8; 8] = [
        code[0],
        code[1],
        humidity_bytes[0],
        humidity_bytes[1],
        word_checksum(humidity_ticks),
        temperature_bytes[0],
        temperature_bytes[1],
        word_checksum(temperature_ticks),
    ];
    assert(frame@ =~= measurement_frame(temperature, humidity));
    frame
}

/// Decodes the response to the measurement command.
pub fn decode_raw_signal(response: &[u8; 3]) -> (raw: u16)
    ensures
        raw == raw_signal_of(response@),
{
    from_be_bytes(response[0], response[1])
}

/// Turns an answer of the gas index filter into a VOC index.
pub fn voc_index(answer: i32) -> (index: u16)
    ensures
        index == voc_index_of(answer),
{
    let low: i32 = answer % 0x1_0000;
    if low < 0 {
        (low + 0x1_0000) as u16
    } else {
        low as u16
    }
}

/// The VOC sensor on a bus of type `T`, with its gas index filter.
pub struct SGP40<T> {
    device: Device<T>,
    filter: gas_index_algorithm::GasIndexAlgorithm,
    samples: u32,
}

impl<T: I2cBus> SGP40<T> {
    /// Every transfer that this driver has made, oldest first.
    pub closed spec fn traffic(&self) -> Seq<Transfer> {
        self.device.traffic()
    }

    /// The bus address that this driver talks to.
    pub closed spec fn address(&self) -> u8 {
        self.device.station()
    }

    /// The number of raw signals fed to the filter so far; it stops
    /// counting at `u32::MAX`.
    pub closed spec fn samples(&self) -> u32 {
        self.samples
    }

    /// Takes the bus and a fresh gas index filter. The sensor accepts
    /// commands 0.6 ms after power-up.
    pub fn new(i2c: T, filter: gas_index_algorithm::GasIndexAlgorithm) -> (sensor: Self)
        ensures
            sensor.address() == DEFAULT_ADDRESS,
            sensor.traffic() == Seq::<Transfer>::empty(),
            sensor.samples() == 0,
    {
        SGP40 { device: Device::new(i2c, DEFAULT_ADDRESS), filter, samples: 0 }
    }

    /// Takes the bus for a sensor at `address`, and a fresh gas index
    /// filter.
    pub fn with_address(i2c: T, address: u8, filter: gas_index_algorithm::GasIndexAlgorithm) -> (sensor:
        Self)
        ensures
            sensor.address() == address,
            sensor.traffic() == Seq::<Transfer>::empty(),
            sensor.samples() == 0,
    {
        SGP40 { device: Device::new(i2c, address), filter, samples: 0 }
    }

    /// The number of raw signals fed to the filter so far.
    pub fn samples_processed(&self) -> (n: u32)
        ensures
            n == self.samples(),
    {
        self.samples
    }

    /// Whether the filter has taken in `WARM_UP_SAMPLES` signals. Its
    /// answers before that are not to be relied on.
    pub fn warmed_up(&self) -> (warm: bool)
        ensures
            warm == (self.samples() >= WARM_UP_SAMPLES),
    {
        self.samples >= WARM_UP_SAMPLES
    }

    /// Measures the raw signal: writes the measurement command for
    /// `temperature` and `humidity`, waits 30 ms on `delay`, reads three
    /// bytes and returns their word. The filter is not involved.
    ///
    /// Fails exactly when the write fails, after which nothing follows,
    /// or the read fails.
    pub fn measure_raw_signal_compensated<D: DelayMs>(
        &mut self,
        temperature: i16,
        humidity: u8,
        delay: &mut D,
    ) -> (r: Result<u16, T::Error>)
        ensures
            final(self).address() == old(self).address(),
            final(self).samples() == old(self).samples(),
            r matches Ok(raw) ==> query_succeeded(
                old(self).traffic(),
                final(self).traffic(),
                old(self).address(),
                measurement_frame(temperature, humidity),
                Some(MEASUREMENT_DELAY_MS),
                3,
            ) && raw == raw_signal_of(last_read(final(self).traffic())),
            r is Err ==> query_failed(
                old(self).traffic(),
                final(self).traffic(),
                old(self).address(),
                measurement_frame(temperature, humidity),
                Some(MEASUREMENT_DELAY_MS),
            ),
    {
        let frame: [u8; 8] = create_measurement_command(temperature, humidity);
        let mut response: [u8; 3] = [0u8; 3];
        match self.device.query_after(&frame, delay, MEASUREMENT_DELAY_MS, &mut response) {
            Ok(()) => Ok(decode_raw_signal(&response)),
            Err(e) => Err(e),
        }
    }

    /// Measures the raw signal as `measure_raw_signal_compensated` does,
    /// feeds it to the gas index filter, and returns the filter's answer
    /// as a VOC index. The filter is fed exactly when the measurement
    /// succeeded.
    pub fn measure_signal_compensated<D: DelayMs>(
        &mut self,
        temperature: i16,
        humidity: u8,
        delay: &mut D,
    ) -> (r: Result<u16, T::Error>)
        ensures
            final(self).address() == old(self).address(),
            r is Ok ==> query_succeeded(
                old(self).traffic(),
                final(self).traffic(),
                old(self).address(),
                measurement_frame(temperature, humidity),
                Some(MEASUREMENT_DELAY_MS),
                3,
            ) && final(self).samples() == if old(self).samples() == u32::MAX {
                u32::MAX
            } else {
                (old(self).samples() + 1) as u32
            },
            r is Err ==> final(self).samples() == old(self).samples() && query_failed(
                old(self).traffic(),
                final(self).traffic(),
                old(self).address(),
                measurement_frame(temperature, humidity),
                Some(MEASUREMENT_DELAY_MS),
            ),
    {
        let raw: u16 = match self.measure_raw_signal_compensated(temperature, humidity, delay) {
            Ok(raw) => raw,
            Err(e) => {
                return Err(e);
            },
        };
        let answer: i32 = gas_index(&mut self.filter, raw as i32);
        if self.samples < u32::MAX {
            self.samples = self.samples + 1;
        }
        Ok(voc_index(answer))
    }
}

} // verus!
