//! LEDs driven through output pins: a monochrome LED on one pin, and an
//! RGB LED on three, each with direct or inverted logic.

use vstd::prelude::*;
use crate::drivers::Hertz;

verus! {

/// A digital output pin.
pub trait OutputPin {
    /// Whether the pin is driven high.
    spec fn spec_high(&self) -> bool;

    /// Drives the pin high.
    fn set_high(&mut self)
        ensures
            final(self).spec_high(),
    ;

    /// Drives the pin low.
    fn set_low(&mut self)
        ensures
            !final(self).spec_high(),
    ;

    /// Whether the pin is driven high.
    fn is_high(&self) -> (r: bool)
        ensures
            r == self.spec_high(),
    ;

    /// Whether the pin is driven low.
    fn is_low(&self) -> (r: bool)
        ensures
            r == !self.spec_high(),
    ;
}

/// A pin that only remembers the level it is driven to, for hosts without
/// GPIO and for tests.
#[derive(Copy, Clone, Debug, Default, PartialEq, Eq)]
pub struct MockPin {
    high: bool,
}

impl OutputPin for MockPin {
    closed spec fn spec_high(&self) -> bool {
        self.high
    }

    fn set_high(&mut self) {
        self.high = true;
    }

    fn set_low(&mut self) {
        self.high = false;
    }

    fn is_high(&self) -> (r: bool) {
        self.high
    }

    fn is_low(&self) -> (r: bool) {
        !self.high
    }
}

/// How a pin's level relates to the LED shining.
#[derive(Copy, Clone, Debug, PartialEq, Eq)]
pub enum LogicLevel {
    /// Logical high equals "on".
    Direct,
    /// Logical high equals "off".
    Inverted,
}

/// Colors of an RGB LED.
#[derive(Copy, Clone, Debug, PartialEq, Eq)]
pub enum RgbPalette {
    Red,
    Green,
    Blue,
}

impl RgbPalette {
    pub fn is_red(&self) -> (r: bool)
        ensures
            r == (*self is Red),
    {
        matches!(self, RgbPalette::Red)
    }

    pub fn is_green(&self) -> (r: bool)
        ensures
            r == (*self is Green),
    {
        matches!(self, RgbPalette::Green)
    }

    pub fn is_blue(&self) -> (r: bool)
        ensures
            r == (*self is Blue),
    {
        matches!(self, RgbPalette::Blue)
    }
}

/// The level a pin is driven to for an LED that is `on` (or off).
pub open spec fn level(on: bool, logic: LogicLevel) -> bool {
    match logic {
        LogicLevel::Direct => on,
        LogicLevel::Inverted => !on,
    }
}

/// Drives a pin so that its LED shines (or not) under the given logic.
fn drive<P: OutputPin>(pin: &mut P, on: bool, logic: LogicLevel)
    ensures
        final(pin).spec_high() == level(on, logic),
{
    if on == matches!(logic, LogicLevel::Direct) {
        pin.set_high();
    } else {
        pin.set_low();
    }
}

/// Switching an LED on and off.
pub trait Toggle {
    /// Whether the LED shines.
    spec fn spec_on(&self) -> bool;

    /// The driver's own consistency between its state and its pins.
    spec fn wf(&self) -> bool;

    fn on(&mut self)
        requires
            old(self).wf(),
        ensures
            final(self).wf(),
            final(self).spec_on(),
    ;

    fn off(&mut self)
        requires
            old(self).wf(),
        ensures
            final(self).wf(),
            !final(self).spec_on(),
    ;

    fn toggle(&mut self)
        requires
            old(self).wf(),
        ensures
            final(self).wf(),
            final(self).spec_on() == !old(self).spec_on(),
    ;
}

/// Choosing an LED's color.
pub trait Chromatic<Color> {
    /// The chosen color.
    spec fn spec_color(&self) -> Color;

    /// The driver's own consistency between its state and its pins.
    spec fn color_wf(&self) -> bool;

    fn color(&mut self, color: Color)
        requires
            old(self).color_wf(),
        ensures
            final(self).color_wf(),
            final(self).spec_color() == color,
    ;
}

/// Blinking at a frequency.
pub trait Blink {
    fn frequency(&mut self, frequency: Hertz);
}

/// Solid (non-blinking) monochrome LED.
pub struct MonochromeLed<P: OutputPin> {
    pin: P,
    is_on: bool,
    logic: LogicLevel,
}

impl<P: OutputPin> MonochromeLed<P> {
    pub closed spec fn spec_pin(&self) -> P {
        self.pin
    }

    pub closed spec fn spec_logic(&self) -> LogicLevel {
        self.logic
    }

    /// A new LED, switched off.
    pub fn new(pin: P, logic: LogicLevel) -> (r: Self)
        ensures
            r.wf(),
            !r.spec_on(),
            r.spec_logic() == logic,
            r.spec_pin().spec_high() == level(false, logic),
    {
        let mut pin = pin;
        drive(&mut pin, false, logic);
        MonochromeLed { pin, is_on: false, logic }
    }

    pub fn is_on(&self) -> (r: bool)
        ensures
            r == self.spec_on(),
    {
        self.is_on
    }

    /// The LED's pin.
    pub fn pin(&self) -> (r: &P)
        ensures
            *r == self.spec_pin(),
    {
        &self.pin
    }
}

impl<P: OutputPin> Toggle for MonochromeLed<P> {
    closed spec fn spec_on(&self) -> bool {
        self.is_on
    }

    /// The pin is driven to the level that matches the LED's state.
    open spec fn wf(&self) -> bool {
        self.spec_pin().spec_high() == level(self.spec_on(), self.spec_logic())
    }

    fn on(&mut self)
        ensures
            final(self).spec_pin().spec_high() == level(true, final(self).spec_logic()),
            final(self).spec_logic() == old(self).spec_logic(),
    {
        if !self.is_on {
            drive(&mut self.pin, true, self.logic);
        }
        self.is_on = true;
    }

    fn off(&mut self)
        ensures
            final(self).spec_pin().spec_high() == level(false, final(self).spec_logic()),
            final(self).spec_logic() == old(self).spec_logic(),
    {
        if self.is_on {
            drive(&mut self.pin, false, self.logic);
        }
        self.is_on = false;
    }

    fn toggle(&mut self)
        ensures
            final(self).spec_pin().spec_high() == level(final(self).spec_on(), final(self).spec_logic()),
            final(self).spec_logic() == old(self).spec_logic(),
    {
        if self.is_on {
            self.off();
        } else {
            self.on();
        }
    }
}

/// Solid (non-blinking) RGB LED: only the pin of the chosen color shines.
pub struct RgbLed<P: OutputPin> {
    red: P,
    green: P,
    blue: P,
    color: RgbPalette,
    is_on: bool,
    logic: LogicLevel,
}

impl<P: OutputPin> RgbLed<P> {
    pub closed spec fn spec_pin(&self, color: RgbPalette) -> P {
        match color {
            RgbPalette::Red => self.red,
            RgbPalette::Green => self.green,
            RgbPalette::Blue => self.blue,
        }
    }

    pub closed spec fn spec_logic(&self) -> LogicLevel {
        self.logic
    }

    /// Whether the LED shines.
    pub closed spec fn shining(&self) -> bool {
        self.is_on
    }

    /// The chosen color.
    pub closed spec fn chosen(&self) -> RgbPalette {
        self.color
    }

    /// Each pin is driven to its level: high or low as the logic says for
    /// the chosen color while the LED shines, "off" for the others.
    pub closed spec fn pins_ok(&self) -> bool {
        &&& self.red.spec_high() == level(self.is_on && self.color == RgbPalette::Red, self.logic)
        &&& self.green.spec_high() == level(self.is_on && self.color == RgbPalette::Green, self.logic)
        &&& self.blue.spec_high() == level(self.is_on && self.color == RgbPalette::Blue, self.logic)
    }

    /// A new LED, switched off, set to green.
    pub fn new(red: P, green: P, blue: P, logic: LogicLevel) -> (r: Self)
        ensures
            r.pins_ok(),
            r.pins_match(),
            !r.shining(),
            r.chosen() == RgbPalette::Green,
            r.spec_logic() == logic,
    {
        let (mut red, mut green, mut blue) = (red, green, blue);
        drive(&mut red, false, logic);
        drive(&mut green, false, logic);
        drive(&mut blue, false, logic);
        RgbLed { red, green, blue, color: RgbPalette::Green, is_on: false, logic }
    }

    pub fn get_color(&self) -> (r: RgbPalette)
        ensures
            r == self.chosen(),
    {
        self.color
    }

    pub fn is_on(&self) -> (r: bool)
        ensures
            r == self.shining(),
    {
        self.is_on
    }

    /// The pin of one color.
    pub fn pin(&self, color: RgbPalette) -> (r: &P)
        ensures
            *r == self.spec_pin(color),
    {
        match color {
            RgbPalette::Red => &self.red,
            RgbPalette::Green => &self.green,
            RgbPalette::Blue => &self.blue,
        }
    }

    /// Every pin is driven to the level that matches whether it shines:
    /// only the chosen color's pin, and only while the LED is on.
    pub open spec fn pins_match(&self) -> bool {
        forall|c: RgbPalette| #[trigger] self.spec_pin(c).spec_high() == level(
            self.shining() && c == self.chosen(),
            self.spec_logic(),
        )
    }
}

impl<P: OutputPin> Toggle for RgbLed<P> {
    open spec fn spec_on(&self) -> bool {
        self.shining()
    }

    open spec fn wf(&self) -> bool {
        self.pins_ok()
    }

    fn on(&mut self)
        ensures
            final(self).chosen() == old(self).chosen(),
            final(self).spec_logic() == old(self).spec_logic(),
            final(self).pins_match(),
    {
        if !self.is_on {
            match self.color {
                RgbPalette::Red => drive(&mut self.red, true, self.logic),
                RgbPalette::Green => drive(&mut self.green, true, self.logic),
                RgbPalette::Blue => drive(&mut self.blue, true, self.logic),
            }
        }
        self.is_on = true;
    }

    fn off(&mut self)
        ensures
            final(self).chosen() == old(self).chosen(),
            final(self).spec_logic() == old(self).spec_logic(),
            final(self).pins_match(),
    {
        if self.is_on {
            drive(&mut self.red, false, self.logic);
            drive(&mut self.green, false, self.logic);
            drive(&mut self.blue, false, self.logic);
        }
        self.is_on = false;
    }

    fn toggle(&mut self)
        ensures
            final(self).chosen() == old(self).chosen(),
            final(self).spec_logic() == old(self).spec_logic(),
            final(self).pins_match(),
    {
        if self.is_on {
            self.off();
        } else {
            self.on();
        }
    }
}

impl<P: OutputPin> Chromatic<RgbPalette> for RgbLed<P> {
    open spec fn spec_color(&self) -> RgbPalette {
        self.chosen()
    }

    open spec fn color_wf(&self) -> bool {
        self.pins_ok()
    }

    fn color(&mut self, color: RgbPalette)
        ensures
            final(self).pins_ok(),
            final(self).chosen() == color,
            final(self).shining() == old(self).shining(),
            final(self).spec_logic() == old(self).spec_logic(),
            final(self).pins_match(),
    {
        self.color = color;
        if self.is_on {
            drive(&mut self.red, false, self.logic);
            drive(&mut self.green, false, self.logic);
            drive(&mut self.blue, false, self.logic);
            match self.color {
                RgbPalette::Red => drive(&mut self.red, true, self.logic),
                RgbPalette::Green => drive(&mut self.green, true, self.logic),
                RgbPalette::Blue => drive(&mut self.blue, true, self.logic),
            }
        }
    }
}

} // verus!
