use vstd::prelude::*;

use crate::driver::{DelayUs, Interface, ResetPin, Signal};
use display_interface::DisplayError;

verus! {

/// The signals of a run of command bytes.
pub open spec fn commands_signals(bytes: Seq<u8>) -> Seq<Signal> {
    bytes.map_values(|b: u8| Signal::Command(b))
}

/// A refusal mark where a call failed, nothing where it succeeded.
pub open spec fn refusal(ok: bool) -> Seq<Signal> {
    if ok {
        Seq::empty()
    } else {
        seq![Signal::Refused]
    }
}

/// The driver's only way to the bus, the reset pin and the delay provider.
///
/// Each method makes exactly one call on a collaborator and adds that call,
/// with its own arguments and whether it failed, to the record. The fields
/// are private to this module, so the record cannot be written otherwise.
pub struct Link<DI, RST: ResetPin> {
    di: DI,
    rst: Option<RST>,
    trace: Ghost<Seq<Signal>>,
    pin_error: Ghost<Option<RST::Error>>,
}

impl<DI: Interface, RST: ResetPin> Link<DI, RST> {
    /// Every call made on the bus, the reset pin and the delay providers, in
    /// order, each failed one followed by `Refused`.
    pub closed spec fn trace(&self) -> Seq<Signal> {
        self.trace@
    }

    /// The error that the reset pin returned from its last failed call.
    pub closed spec fn pin_error(&self) -> Option<RST::Error> {
        self.pin_error@
    }

    pub closed spec fn interface(&self) -> DI {
        self.di
    }

    pub closed spec fn reset_pin(&self) -> Option<RST> {
        self.rst
    }

    pub fn new(di: DI, rst: Option<RST>) -> (r: Self)
        ensures
            r.trace() == Seq::<Signal>::empty(),
            r.pin_error() is None,
            r.interface() == di,
            r.reset_pin() == rst,
    {
        Link { di, rst, trace: Ghost(Seq::empty()), pin_error: Ghost(None) }
    }

    pub fn has_reset_pin(&self) -> (r: bool)
        ensures
            r == self.reset_pin() is Some,
    {
        self.rst.is_some()
    }

    /// Sends `bytes` in command mode.
    pub fn send_commands(&mut self, bytes: &[u8]) -> (r: Result<(), DisplayError>)
        ensures
            final(self).trace() == old(self).trace() + commands_signals(bytes@) + refusal(r is Ok),
            final(self).reset_pin() is Some == old(self).reset_pin() is Some,
            final(self).pin_error() == old(self).pin_error(),
    {
        let r = self.di.send_commands(bytes);
        self.trace = Ghost(self.trace@ + commands_signals(bytes@) + refusal(r is Ok));
        r
    }

    /// Sends `bytes` in data mode.
    pub fn send_data(&mut self, bytes: &[u8]) -> (r: Result<(), DisplayError>)
        ensures
            final(self).trace() == old(self).trace() + bytes@.map_values(|b: u8| Signal::Data(b))
                + refusal(r is Ok),
            final(self).reset_pin() is Some == old(self).reset_pin() is Some,
            final(self).pin_error() == old(self).pin_error(),
    {
        let r = self.di.send_data(bytes);
        self.trace = Ghost(self.trace@ + bytes@.map_values(|b: u8| Signal::Data(b)) + refusal(r is Ok));
        r
    }

    /// Drives the reset line high or low; without a reset pin, does nothing.
    pub fn drive_reset(&mut self, high: bool) -> (r: Result<(), RST::Error>)
        ensures
            old(self).reset_pin() is None ==> r is Ok && final(self).trace() == old(self).trace()
                && final(self).pin_error() == old(self).pin_error(),
            old(self).reset_pin() is Some ==> final(self).trace() == old(self).trace().push(
                if high {
                    Signal::ResetHigh
                } else {
                    Signal::ResetLow
                },
            ) + refusal(r is Ok),
            r matches Err(e) ==> final(self).pin_error() == Some(e),
            r is Ok ==> final(self).pin_error() == old(self).pin_error(),
            final(self).reset_pin() is Some == old(self).reset_pin() is Some,
    {
        match &mut self.rst {
            Some(pin) => {
                let r = if high {
                    pin.set_high()
                } else {
                    pin.set_low()
                };
                let ghost level = if high {
                    Signal::ResetHigh
                } else {
                    Signal::ResetLow
                };
                self.trace = Ghost(self.trace@.push(level) + refusal(r is Ok));
                match &r {
                    Err(e) => {
                        self.pin_error = Ghost(Some(*e));
                    },
                    Ok(()) => {},
                }
                r
            },
            None => Ok(()),
        }
    }

    /// Waits `us` microseconds on `delay_source`.
    pub fn wait<D: DelayUs>(&mut self, delay_source: &mut D, us: u32)
        ensures
            final(self).trace() == old(self).trace().push(Signal::Delay(us)),
            final(self).reset_pin() is Some == old(self).reset_pin() is Some,
            final(self).pin_error() == old(self).pin_error(),
    {
        delay_source.delay_us(us);
        self.trace = Ghost(self.trace@.push(Signal::Delay(us)));
    }

    /// Hands back the bus and the reset pin.
    pub fn into_parts(self) -> (r: (DI, Option<RST>))
        ensures
            r.0 == self.interface(),
            r.1 == self.reset_pin(),
    {
        (self.di, self.rst)
    }
}

} // verus!
