//! Driver for the CO2, temperature and humidity sensor.
//!
//! Every operation is one exchange at the sensor's address: a command
//! frame is written and, where the command has a response, the response is
//! read right after. A failure of the bus ends the operation at once and is
//! handed to the caller; nothing is retried.
//!
//! The checksum bytes of a response are not examined: a response is decoded
//! whatever they hold (`frame::checksums_intact` is there for callers that
//! want more). The driver does not track whether a measurement was started
//! either: `data_ready` and `read_measurement` mean something only after
//! `start_continuous_measurement`, and it is the caller who keeps the order.

use vstd::prelude::*;
use vstd::arithmetic::power2::pow2;
use crate::logic::binary32::{be_u32, lemma_pow10_values, lemma_scaled_is_rounded, Binary32};
use crate::peripherals::bus::{
    commanded, last_read, query_failed, query_succeeded, Device, I2cBus, Transfer,
};
use crate::wire::frame::{
    argument_frame, command, command_with_argument, from_be_bytes, is_checksum_place, word_bytes,
    word_of,
};

verus! {

/// The bus address of the sensor as shipped.
pub const DEFAULT_ADDRESS: u8 = 0x61;

/// Command code: read the firmware version.
pub const GET_FIRMWARE_VERSION: u16 = 0xd100;

/// Command code: start measuring continuously; the argument is the
/// ambient pressure in millibar.
pub const START_CONTINUOUS_MEASUREMENT: u16 = 0x0010;

/// Command code: ask whether a measurement is waiting to be read.
pub const GET_DATA_READY: u16 = 0x0202;

/// Command code: read the latest measurement.
pub const READ_MEASUREMENT: u16 = 0x0300;

/// Command code: set, with an argument, or get, without one, the
/// temperature offset in hundredths of a degree.
pub const TEMPERATURE_OFFSET: u16 = 0x5403;

/// The largest temperature offset, in hundredths of a degree, that a
/// command can carry.
pub const MAX_OFFSET_TICKS: u16 = 65535;

/// Version of the sensor's firmware.
#[derive(Clone, Copy, Debug, PartialEq, Eq, Structural)]
pub struct FirmwareVersion {
    pub major: u8,
    pub minor: u8,
}

/// One measurement: CO2 concentration in ppm, temperature in degrees
/// Celsius, relative humidity in percent, each as the single-precision
/// number that the sensor sent.
#[derive(Clone, Copy, Debug, PartialEq, Eq, Structural)]
pub struct SensorReading {
    pub co2: Binary32,
    pub temperature: Binary32,
    pub rel_humidity: Binary32,
}

/// The version that a 3-byte response reports: major in the first byte,
/// minor in the second.
pub open spec fn firmware_version_of(response: Seq<u8>) -> FirmwareVersion
    recommends
        response.len() == 3,
{
    FirmwareVersion { major: response[0], minor: response[1] }
}

/// Whether a 3-byte response reports a waiting measurement: its word is 1.
pub open spec fn data_ready_of(response: Seq<u8>) -> bool
    recommends
        response.len() == 3,
{
    word_of(response[0], response[1]) == 1
}

/// The word of a 3-byte response.
pub open spec fn response_word(response: Seq<u8>) -> u16
    recommends
        response.len() == 3,
{
    word_of(response[0], response[1])
}

/// The number sent in the six bytes of `response` from `at` on: two
/// words, the more significant first, each followed by a checksum byte
/// that is skipped.
pub open spec fn number_at(response: Seq<u8>, at: int) -> Binary32
    recommends
        0 <= at,
        at + 6 <= response.len(),
{
    Binary32 {
        bits: be_u32(seq![response[at], response[at + 1], response[at + 3], response[at + 4]]) as u32,
    }
}

/// The measurement that an 18-byte response carries.
pub open spec fn reading_of(response: Seq<u8>) -> SensorReading
    recommends
        response.len() == 18,
{
    SensorReading {
        co2: number_at(response, 0),
        temperature: number_at(response, 6),
        rel_humidity: number_at(response, 12),
    }
}

/// The temperature offset in hundredths of a degree that stands for
/// `offset` degrees: a hundred times the number, rounded half up, and no
/// more than a command can carry. A negative offset and a NaN give 0.
pub open spec fn offset_ticks_of(offset: Binary32) -> int {
    if offset.scaled(2) > MAX_OFFSET_TICKS {
        MAX_OFFSET_TICKS as int
    } else {
        offset.scaled(2)
    }
}

/// Decodes the response to `GET_FIRMWARE_VERSION`.
pub fn decode_firmware_version(response: &[u8; 3]) -> (version: FirmwareVersion)
    ensures
        version == firmware_version_of(response@),
{
    FirmwareVersion { major: response[0], minor: response[1] }
}

/// Decodes the response to `GET_DATA_READY`.
pub fn decode_data_ready(response: &[u8; 3]) -> (ready: bool)
    ensures
        ready == data_ready_of(response@),
{
    from_be_bytes(response[0], response[1]) == 1
}

/// Decodes the response to `READ_MEASUREMENT`: three numbers of four
/// bytes each, taken from offsets 0, 1, 3, 4, then 6, 7, 9, 10, then 12,
/// 13, 15, 16. The bytes at offsets 2, 5, 8, 11, 14 and 17 are checksums
/// and play no part.
pub fn decode_measurement(response: &[u8; 18]) -> (reading: SensorReading)
    ensures
        reading == reading_of(response@),
{
    let co2 = Binary32::from_be_bytes([response[0], response[1], response[3], response[4]]);
    let temperature = Binary32::from_be_bytes(
        [response[6], response[7], response[9], response[10]],
    );
    let rel_humidity = Binary32::from_be_bytes(
        [response[12], response[13], response[15], response[16]],
    );
    SensorReading { co2, temperature, rel_humidity }
}

/// Decodes the response to `TEMPERATURE_OFFSET`: the offset in degrees,
/// which is the word of the response, in hundredths of a degree, as the
/// nearest number.
pub fn decode_temperature_offset(response: &[u8; 3]) -> (offset: Binary32)
    ensures
        offset.is_nearest_hundredths(response_word(response@) as int),
{
    Binary32::from_hundredths(from_be_bytes(response[0], response[1]))
}

/// Encodes a temperature offset in degrees as hundredths of a degree.
pub fn temperature_offset_ticks(offset: Binary32) -> (ticks: u16)
    ensures
        ticks == offset_ticks_of(offset),
{
    let whole: u32 = offset.floor_u32();
    let hundredths: u32 = offset.fract_scaled_u32(2);
    proof {
        lemma_pow10_values();
    }
    if whole > 655 {
        MAX_OFFSET_TICKS
    } else {
        let scaled: u32 = whole * 100 + hundredths;
        if scaled > 65535 {
            MAX_OFFSET_TICKS
        } else {
            scaled as u16
        }
    }
}

/// An offset that was read can be set again without loss: the number
/// nearest to a count of hundredths encodes as that count.
pub proof fn lemma_offset_round_trip(ticks: u16, offset: Binary32)
    requires
        offset.is_nearest_hundredths(ticks as int),
    ensures
        offset_ticks_of(offset) == ticks,
{
    lemma_pow10_values();
    if ticks == 0 {
        let d = pow2((-offset.scale()) as nat);
        vstd::arithmetic::power2::lemma_pow2_pos((-offset.scale()) as nat);
        vstd::arithmetic::div_mod::lemma_basic_div(0, d as int);
        vstd::arithmetic::div_mod::lemma_small_mod(0, d);
    } else {
        let k = (-offset.scale()) as nat;
        let d = pow2(k) as int;
        let sig = offset.significand();
        let drift = ticks * d - sig * 100;
        lemma_scaled_is_rounded(offset, 2);
        // The significand has 24 bits and stands for less than 656, so
        // the scale is at least 14 binary places, and half of one unit of
        // it is far more than the drift.
        vstd::arithmetic::power2::lemma2_to64();
        if k < 14 {
            if k < 13 {
                vstd::arithmetic::power2::lemma_pow2_strictly_increases(k, 13);
            }
            assert(d <= 0x2000);
            assert(ticks * d <= 536_862_720) by (nonlinear_arith)
                requires
                    0 <= ticks <= 0xffff,
                    0 <= d <= 0x2000,
            ;
        } else if k > 14 {
            vstd::arithmetic::power2::lemma_pow2_strictly_increases(14, k);
        }
        let rest = sig * 100 - (ticks - 1) * d;
        assert(rest == d - drift && sig * 100 == d * (ticks - 1) + rest) by (nonlinear_arith)
            requires
                rest == sig * 100 - (ticks - 1) * d,
                drift == ticks * d - sig * 100,
        ;
        if drift > 0 {
            vstd::arithmetic::div_mod::lemma_fundamental_div_mod_converse(
                sig * 100,
                d,
                ticks - 1,
                rest,
            );
        } else {
            vstd::arithmetic::div_mod::lemma_fundamental_div_mod_converse(
                sig * 100,
                d,
                ticks as int,
                -drift,
            );
        }
    }
}

/// A measurement depends on the twelve data bytes of a response alone:
/// two responses that differ only in checksum bytes decode alike.
pub proof fn lemma_reading_ignores_checksums(a: Seq<u8>, b: Seq<u8>)
    requires
        a.len() == 18,
        b.len() == 18,
        forall|i: int| 0 <= i < 18 && !is_checksum_place(i) ==> #[trigger] a[i] == b[i],
    ensures
        reading_of(a) == reading_of(b),
{
    assert(a[0] == b[0] && a[1] == b[1] && a[3] == b[3] && a[4] == b[4]);
    assert(a[6] == b[6] && a[7] == b[7] && a[9] == b[9] && a[10] == b[10]);
    assert(a[12] == b[12] && a[13] == b[13] && a[15] == b[15] && a[16] == b[16]);
}

/// The CO2 sensor on a bus of type `T`.
pub struct SCD30<T> {
    device: Device<T>,
}

impl<T: I2cBus> SCD30<T> {
    /// Every transfer that this driver has made, oldest first.
    pub closed spec fn traffic(&self) -> Seq<Transfer> {
        self.device.traffic()
    }

    /// The bus address that this driver talks to.
    pub closed spec fn address(&self) -> u8 {
        self.device.station()
    }

    /// Takes the bus for a sensor at the default address.
    pub fn new(i2c: T) -> (sensor: Self)
        ensures
            sensor.address() == DEFAULT_ADDRESS,
            sensor.traffic() == Seq::<Transfer>::empty(),
    {
        SCD30 { device: Device::new(i2c, DEFAULT_ADDRESS) }
    }

    /// Takes the bus for a sensor at `address`.
    pub fn with_address(i2c: T, address: u8) -> (sensor: Self)
        ensures
            sensor.address() == address,
            sensor.traffic() == Seq::<Transfer>::empty(),
    {
        SCD30 { device: Device::new(i2c, address) }
    }

    /// Reads the firmware version: writes `GET_FIRMWARE_VERSION`, reads
    /// three bytes and decodes them.
    ///
    /// Fails exactly when the write fails, after which nothing is read, or
    /// the read fails.
    pub fn get_firmware_version(&mut self) -> (r: Result<FirmwareVersion, T::Error>)
        ensures
            final(self).address() == old(self).address(),
            r matches Ok(version) ==> query_succeeded(
                old(self).traffic(),
                final(self).traffic(),
                old(self).address(),
                word_bytes(GET_FIRMWARE_VERSION),
                None,
                3,
            ) && version == firmware_version_of(last_read(final(self).traffic())),
            r is Err ==> query_failed(
                old(self).traffic(),
                final(self).traffic(),
                old(self).address(),
                word_bytes(GET_FIRMWARE_VERSION),
                None,
            ),
    {
        let frame: [u8; 2] = command(GET_FIRMWARE_VERSION);
        let mut response: [u8; 3] = [0u8; 3];
        match self.device.query(&frame, &mut response) {
            Ok(()) => Ok(decode_firmware_version(&response)),
            Err(e) => Err(e),
        }
    }

    /// Starts continuous measurement, compensated for an ambient pressure
    /// of `pressure` millibar: writes `START_CONTINUOUS_MEASUREMENT` with
    /// the pressure and its checksum. There is no response.
    ///
    /// Fails exactly when the write fails.
    pub fn start_continuous_measurement(&mut self, pressure: u16) -> (r: Result<(), T::Error>)
        ensures
            final(self).address() == old(self).address(),
            commanded(
                old(self).traffic(),
                final(self).traffic(),
                old(self).address(),
                argument_frame(START_CONTINUOUS_MEASUREMENT, pressure),
                r is Ok,
            ),
    {
        let frame: [u8; 5] = command_with_argument(START_CONTINUOUS_MEASUREMENT, pressure);
        self.device.write(&frame)
    }

    /// Asks whether a measurement is waiting: writes `GET_DATA_READY`,
    /// reads three bytes, and answers `true` exactly if their word is 1.
    ///
    /// Fails exactly when the write fails, after which nothing is read, or
    /// the read fails.
    pub fn data_ready(&mut self) -> (r: Result<bool, T::Error>)
        ensures
            final(self).address() == old(self).address(),
            r matches Ok(ready) ==> query_succeeded(
                old(self).traffic(),
                final(self).traffic(),
                old(self).address(),
                word_bytes(GET_DATA_READY),
                None,
                3,
            ) && ready == data_ready_of(last_read(final(self).traffic())),
            r is Err ==> query_failed(
                old(self).traffic(),
                final(self).traffic(),
                old(self).address(),
                word_bytes(GET_DATA_READY),
                None,
            ),
    {
        let frame: [u8; 2] = command(GET_DATA_READY);
        let mut response: [u8; 3] = [0u8; 3];
        match self.device.query(&frame, &mut response) {
            Ok(()) => Ok(decode_data_ready(&response)),
            Err(e) => Err(e),
        }
    }

    /// Reads the latest measurement: writes `READ_MEASUREMENT`, reads
    /// eighteen bytes and decodes them.
    ///
    /// Fails exactly when the write fails, after which nothing is read, or
    /// the read fails.
    pub fn read_measurement(&mut self) -> (r: Result<SensorReading, T::Error>)
        ensures
            final(self).address() == old(self).address(),
            r matches Ok(reading) ==> query_succeeded(
                old(self).traffic(),
                final(self).traffic(),
                old(self).address(),
                word_bytes(READ_MEASUREMENT),
                None,
                18,
            ) && reading == reading_of(last_read(final(self).traffic())),
            r is Err ==> query_failed(
                old(self).traffic(),
                final(self).traffic(),
                old(self).address(),
                word_bytes(READ_MEASUREMENT),
                None,
            ),
    {
        let frame: [u8; 2] = command(READ_MEASUREMENT);
        let mut response: [u8; 18] = [0u8; 18];
        match self.device.query(&frame, &mut response) {
            Ok(()) => Ok(decode_measurement(&response)),
            Err(e) => Err(e),
        }
    }

    /// Sets the temperature offset to `offset` degrees: writes
    /// `TEMPERATURE_OFFSET` with the offset in hundredths of a degree and
    /// its checksum. There is no response.
    ///
    /// Fails exactly when the write fails.
    pub fn set_temperature_offset(&mut self, offset: Binary32) -> (r: Result<(), T::Error>)
        ensures
            final(self).address() == old(self).address(),
            commanded(
                old(self).traffic(),
                final(self).traffic(),
                old(self).address(),
                argument_frame(TEMPERATURE_OFFSET, offset_ticks_of(offset) as u16),
                r is Ok,
            ),
    {
        let ticks: u16 = temperature_offset_ticks(offset);
        let frame: [u8; 5] = command_with_argument(TEMPERATURE_OFFSET, ticks);
        self.device.write(&frame)
    }

    /// Reads the temperature offset in degrees: writes
    /// `TEMPERATURE_OFFSET`, reads three bytes, and returns the number
    /// nearest to a hundredth of their word.
    ///
    /// Fails exactly when the write fails, after which nothing is read, or
    /// the read fails.
    pub fn read_temperature_offset(&mut self) -> (r: Result<Binary32, T::Error>)
        ensures
            final(self).address() == old(self).address(),
            r matches Ok(offset) ==> query_succeeded(
                old(self).traffic(),
                final(self).traffic(),
                old(self).address(),
                word_bytes(TEMPERATURE_OFFSET),
                None,
                3,
            ) && offset.is_nearest_hundredths(
                response_word(last_read(final(self).traffic())) as int,
            ),
            r is Err ==> query_failed(
                old(self).traffic(),
                final(self).traffic(),
                old(self).address(),
                word_bytes(TEMPERATURE_OFFSET),
                None,
            ),
    {
        let frame: [u8; 2] = command(TEMPERATURE_OFFSET);
        let mut response: [u8; 3] = [0u8; 3];
        match self.device.query(&frame, &mut response) {
            Ok(()) => Ok(decode_temperature_offset(&response)),
            Err(e) => Err(e),
        }
    }
}

} // verus!
