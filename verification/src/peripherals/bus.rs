//! The capabilities that the sensor drivers ask of their surroundings: a
//! register-addressed serial bus and a millisecond delay. Hardware
//! implements the two traits; so does a test double.
//!
//! Neither trait promises anything, so a driver proves nothing from what a
//! bus does. What a driver does to the bus is what gets proved: a `Device`
//! keeps, as ghost state, the sequence of transfers made with it, and the
//! drivers' contracts speak of that sequence.

use vstd::prelude::*;

verus! {

/// A bus on which a device is written to and read from at a 7-bit address.
/// Both operations block until the transfer is over or has failed.
pub trait I2cBus {
    /// Why a transfer failed.
    type Error;

    /// Sends `bytes` to the device at `address`.
    fn write(&mut self, address: u8, bytes: &[u8]) -> Result<(), Self::Error>;

    /// Fills `buffer` with bytes read from the device at `address`.
    fn read(&mut self, address: u8, buffer: &mut [u8]) -> Result<(), Self::Error>;
}

/// A blocking delay.
pub trait DelayMs {
    /// Returns after at least `ms` milliseconds.
    fn delay_ms(&mut self, ms: u8);
}

/// One step of the traffic between a driver and its device.
pub ghost enum Transfer {
    /// `bytes` were handed to the bus for the device at `address`; `ok`
    /// tells whether the bus reported success.
    Write { address: u8, bytes: Seq<u8>, ok: bool },
    /// The driver let `ms` milliseconds pass.
    Delay { ms: u8 },
    /// The bus was asked to read from the device at `address`; `data` is
    /// what the buffer held afterwards, `ok` whether the bus reported
    /// success.
    Read { address: u8, data: Seq<u8>, ok: bool },
}

/// The traffic of a command without a response: one write, which failed
/// or succeeded as `ok` tells.
pub open spec fn commanded(
    before: Seq<Transfer>,
    after: Seq<Transfer>,
    address: u8,
    frame: Seq<u8>,
    ok: bool,
) -> bool {
    after == before.push(Transfer::Write { address, bytes: frame, ok })
}

/// The traffic of a query: a successful write of `frame`, an optional
/// pause, and one read, which left `data` and failed or succeeded as `ok`
/// tells.
pub open spec fn queried(
    before: Seq<Transfer>,
    after: Seq<Transfer>,
    address: u8,
    frame: Seq<u8>,
    pause: Option<u8>,
    data: Seq<u8>,
    ok: bool,
) -> bool {
    let written = before.push(Transfer::Write { address, bytes: frame, ok: true });
    let paused = match pause {
        Some(ms) => written.push(Transfer::Delay { ms }),
        None => written,
    };
    after == paused.push(Transfer::Read { address, data, ok })
}

/// The traffic of a query that succeeded and read `len` bytes.
pub open spec fn query_succeeded(
    before: Seq<Transfer>,
    after: Seq<Transfer>,
    address: u8,
    frame: Seq<u8>,
    pause: Option<u8>,
    len: nat,
) -> bool {
    queried(before, after, address, frame, pause, last_read(after), true) && last_read(after).len()
        == len
}

/// The traffic of a query that failed: the write failed and nothing
/// followed it, or the write succeeded and the read failed.
pub open spec fn query_failed(
    before: Seq<Transfer>,
    after: Seq<Transfer>,
    address: u8,
    frame: Seq<u8>,
    pause: Option<u8>,
) -> bool {
    commanded(before, after, address, frame, false) || queried(
        before,
        after,
        address,
        frame,
        pause,
        last_read(after),
        false,
    )
}

/// What the last transfer of `traffic` read, if it was a read.
pub open spec fn last_read(traffic: Seq<Transfer>) -> Seq<u8> {
    match traffic.last() {
        Transfer::Read { data, .. } => data,
        _ => Seq::empty(),
    }
}

/// One device on a bus: the bus, the address of the device, and the ghost
/// record of the traffic with it.
pub struct Device<T> {
    bus: T,
    address: u8,
    traffic: Ghost<Seq<Transfer>>,
}

impl<T: I2cBus> Device<T> {
    /// Every transfer made with this device, oldest first.
    pub closed spec fn traffic(&self) -> Seq<Transfer> {
        self.traffic@
    }

    /// The address of the device.
    pub closed spec fn station(&self) -> u8 {
        self.address
    }

    /// Takes ownership of `bus` for the device at `address`.
    pub fn new(bus: T, address: u8) -> (device: Self)
        ensures
            device.traffic() == Seq::<Transfer>::empty(),
            device.station() == address,
    {
        Device { bus, address, traffic: Ghost(Seq::empty()) }
    }

    /// The address of the device.
    pub fn address(&self) -> (address: u8)
        ensures
            address == self.station(),
    {
        self.address
    }

    /// Sends `frame` to the device, once.
    pub fn write(&mut self, frame: &[u8]) -> (r: Result<(), T::Error>)
        ensures
            final(self).station() == old(self).station(),
            commanded(old(self).traffic(), final(self).traffic(), old(self).station(), frame@, r is Ok),
    {
        let r = self.bus.write(self.address, frame);
        proof {
            self.traffic@ = self.traffic@.push(
                Transfer::Write { address: self.address, bytes: frame@, ok: r is Ok },
            );
        }
        r
    }

    /// Lets `ms` milliseconds pass on `delay`.
    pub fn pause<D: DelayMs>(&mut self, delay: &mut D, ms: u8)
        ensures
            final(self).station() == old(self).station(),
            final(self).traffic() == old(self).traffic().push(Transfer::Delay { ms }),
    {
        delay.delay_ms(ms);
        proof {
            self.traffic@ = self.traffic@.push(Transfer::Delay { ms });
        }
    }

    /// Sends `frame` and, if that succeeded, reads the response into
    /// `buffer`. Nothing is tried twice.
    pub fn query(&mut self, frame: &[u8], buffer: &mut [u8]) -> (r: Result<(), T::Error>)
        ensures
            final(self).station() == old(self).station(),
            r is Ok ==> queried(
                old(self).traffic(),
                final(self).traffic(),
                old(self).station(),
                frame@,
                None,
                final(buffer)@,
                true,
            ),
            r is Err ==> query_failed(
                old(self).traffic(),
                final(self).traffic(),
                old(self).station(),
                frame@,
                None,
            ),
    {
        match self.write(frame) {
            Ok(()) => {},
            Err(e) => {
                return Err(e);
            },
        }
        self.read(buffer)
    }

    /// Sends `frame` and, if that succeeded, waits `ms` milliseconds on
    /// `delay` and then reads the response into `buffer`.
    pub fn query_after<D: DelayMs>(
        &mut self,
        frame: &[u8],
        delay: &mut D,
        ms: u8,
        buffer: &mut [u8],
    ) -> (r: Result<(), T::Error>)
        ensures
            final(self).station() == old(self).station(),
            r is Ok ==> queried(
                old(self).traffic(),
                final(self).traffic(),
                old(self).station(),
                frame@,
                Some(ms),
                final(buffer)@,
                true,
            ),
            r is Err ==> query_failed(
                old(self).traffic(),
                final(self).traffic(),
                old(self).station(),
                frame@,
                Some(ms),
            ),
    {
        match self.write(frame) {
            Ok(()) => {},
            Err(e) => {
                return Err(e);
            },
        }
        self.pause(delay, ms);
        self.read(buffer)
    }

    /// Reads from the device into `buffer`, once.
    pub fn read(&mut self, buffer: &mut [u8]) -> (r: Result<(), T::Error>)
        ensures
            final(self).station() == old(self).station(),
            final(self).traffic() == old(self).traffic().push(
                Transfer::Read { address: old(self).station(), data: final(buffer)@, ok: r is Ok },
            ),
    {
        let r = self.bus.read(self.address, buffer);
        proof {
            self.traffic@ = self.traffic@.push(
                Transfer::Read { address: self.address, data: buffer@, ok: r is Ok },
            );
        }
        r
    }
}

} // verus!
