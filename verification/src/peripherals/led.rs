//! An RGB light on three pulse-width-modulated channels.

use vstd::prelude::*;

verus! {

/// The duty cycle that stands for full brightness of a channel.
pub const FULL_BRIGHTNESS: u16 = 255;

/// A pulse-width-modulated output whose duty cycle can be set as a
/// fraction of its period.
pub trait SetDutyCycle {
    /// Why the duty cycle could not be set.
    type Error;

    /// Sets the duty cycle to `num / denom` of the period.
    fn set_duty_cycle_fraction(&mut self, num: u16, denom: u16) -> Result<(), Self::Error>
        requires
            denom != 0,
            num <= denom,
    ;
}

/// The three channels of the light.
pub ghost enum Channel {
    Red,
    Green,
    Blue,
}

/// One request to a channel: the duty cycle asked for, as `num / denom`,
/// and whether the channel reported success.
pub ghost struct DutyRequest {
    pub channel: Channel,
    pub num: u16,
    pub denom: u16,
    pub ok: bool,
}

/// The first `count` requests of setting a colour: red, then green, then
/// blue, each out of 255. All succeed but the last one, which succeeds or
/// fails as `last_ok` tells.
pub open spec fn colour_requests(red: u8, green: u8, blue: u8, count: int, last_ok: bool) -> Seq<
    DutyRequest,
>
    recommends
        1 <= count <= 3,
{
    let all = seq![
        DutyRequest { channel: Channel::Red, num: red as u16, denom: 255, ok: count > 1 || last_ok },
        DutyRequest {
            channel: Channel::Green,
            num: green as u16,
            denom: 255,
            ok: count > 2 || last_ok,
        },
        DutyRequest { channel: Channel::Blue, num: blue as u16, denom: 255, ok: last_ok },
    ];
    all.subrange(0, count)
}

/// An RGB light driven through three channels of type `T`.
pub struct PwmLEDControl<T> {
    channel_red: T,
    channel_green: T,
    channel_blue: T,
    requests: Ghost<Seq<DutyRequest>>,
}

impl<T: SetDutyCycle> PwmLEDControl<T> {
    /// The channel of the red light.
    pub closed spec fn red(&self) -> T {
        self.channel_red
    }

    /// The channel of the green light.
    pub closed spec fn green(&self) -> T {
        self.channel_green
    }

    /// The channel of the blue light.
    pub closed spec fn blue(&self) -> T {
        self.channel_blue
    }

    /// Every request made to the channels, oldest first.
    pub closed spec fn requests(&self) -> Seq<DutyRequest> {
        self.requests@
    }

    /// Takes the three channels.
    pub fn new(red: T, green: T, blue: T) -> (led: Self)
        ensures
            led.red() == red,
            led.green() == green,
            led.blue() == blue,
            led.requests() == Seq::<DutyRequest>::empty(),
    {
        PwmLEDControl {
            channel_red: red,
            channel_green: green,
            channel_blue: blue,
            requests: Ghost(Seq::empty()),
        }
    }

    /// Shows a colour: sets red, green and blue, in this order, to
    /// `red / 255`, `green / 255` and `blue / 255` of full brightness.
    ///
    /// Stops at the first channel that fails and returns its error; the
    /// channels after it are left as they were.
    pub fn set_color(&mut self, red: u8, green: u8, blue: u8) -> (r: Result<(), T::Error>)
        ensures
            r is Ok ==> final(self).requests() == old(self).requests() + colour_requests(
                red,
                green,
                blue,
                3,
                true,
            ),
            r is Err ==> {
                let count = final(self).requests().len() - old(self).requests().len();
                &&& 1 <= count <= 3
                &&& final(self).requests() == old(self).requests() + colour_requests(
                    red,
                    green,
                    blue,
                    count,
                    false,
                )
            },
            r is Err && final(self).requests().len() < old(self).requests().len() + 3
                ==> final(self).blue() == old(self).blue(),
            r is Err && final(self).requests().len() < old(self).requests().len() + 2
                ==> final(self).green() == old(self).green(),
    {
        let ghost before = self.requests@;
        let first = self.channel_red.set_duty_cycle_fraction(red as u16, FULL_BRIGHTNESS);
        proof {
            self.requests@ = self.requests@.push(
                DutyRequest { channel: Channel::Red, num: red as u16, denom: 255, ok: first is Ok },
            );
        }
        match first {
            Ok(()) => {},
            Err(e) => {
                assert(self.requests@ =~= before + colour_requests(red, green, blue, 1, false));
                return Err(e);
            },
        }
        let second = self.channel_green.set_duty_cycle_fraction(green as u16, FULL_BRIGHTNESS);
        proof {
            self.requests@ = self.requests@.push(
                DutyRequest {
                    channel: Channel::Green,
                    num: green as u16,
                    denom: 255,
                    ok: second is Ok,
                },
            );
        }
        match second {
            Ok(()) => {},
            Err(e) => {
                assert(self.requests@ =~= before + colour_requests(red, green, blue, 2, false));
                return Err(e);
            },
        }
        let third = self.channel_blue.set_duty_cycle_fraction(blue as u16, FULL_BRIGHTNESS);
        proof {
            self.requests@ = self.requests@.push(
                DutyRequest { channel: Channel::Blue, num: blue as u16, denom: 255, ok: third is Ok },
            );
            assert(self.requests@ =~= before + colour_requests(red, green, blue, 3, third is Ok));
        }
        third
    }

    /// Gives the channels back: red, green, blue.
    pub fn free(self) -> (channels: (T, T, T))
        ensures
            channels == (self.red(), self.green(), self.blue()),
    {
        (self.channel_red, self.channel_green, self.channel_blue)
    }
}

} // verus!
