//! Time units, clock frequencies, system tick arithmetic and serial port
//! configuration: what the hardware drivers compute before they touch a
//! register.

use vstd::prelude::*;

verus! {

/// A frequency in hertz.
#[derive(Copy, Clone, Debug, PartialEq, Eq)]
pub struct Hertz(pub u32);

/// A frequency in megahertz.
#[derive(Copy, Clone, Debug, PartialEq, Eq)]
pub struct MegaHertz(pub u32);

/// A duration in milliseconds.
#[derive(Copy, Clone, Debug, PartialEq, Eq)]
pub struct Milliseconds(pub u32);

/// A baud rate in bits per second.
#[derive(Copy, Clone, Debug, PartialEq, Eq)]
pub struct Bps(pub u32);

impl MegaHertz {
    /// The same frequency in hertz.
    pub fn to_hertz(self) -> (r: Hertz)
        requires
            self.0 * 1_000_000 <= u32::MAX,
        ensures
            r.0 == self.0 * 1_000_000,
    {
        Hertz(self.0 * 1_000_000)
    }
}

/// Frozen clock frequencies: once they exist, the clock configuration can
/// no longer change.
#[derive(Copy, Clone, Debug, PartialEq, Eq)]
pub struct Clocks {
    hclk: Hertz,
    pclk1: Hertz,
    pclk2: Hertz,
    sysclk: Hertz,
}

impl Clocks {
    pub closed spec fn spec_hclk(self) -> Hertz {
        self.hclk
    }

    pub closed spec fn spec_pclk1(self) -> Hertz {
        self.pclk1
    }

    pub closed spec fn spec_pclk2(self) -> Hertz {
        self.pclk2
    }

    pub closed spec fn spec_sysclk(self) -> Hertz {
        self.sysclk
    }

    pub fn hclk(&self) -> (r: Hertz)
        ensures
            r == self.spec_hclk(),
    {
        self.hclk
    }

    pub fn pclk1(&self) -> (r: Hertz)
        ensures
            r == self.spec_pclk1(),
    {
        self.pclk1
    }

    pub fn pclk2(&self) -> (r: Hertz)
        ensures
            r == self.spec_pclk2(),
    {
        self.pclk2
    }

    pub fn sysclk(&self) -> (r: Hertz)
        ensures
            r == self.spec_sysclk(),
    {
        self.sysclk
    }

    /// The frequencies the STM32F412 runs at once its clock tree is set up:
    /// a 50 MHz system clock from the PLL, the AHB and APB2 buses undivided
    /// and APB1 divided by two.
    pub fn hardcoded() -> (r: Self)
        ensures
            r.spec_hclk() == Hertz(50_000_000),
            r.spec_pclk1() == Hertz(25_000_000),
            r.spec_pclk2() == Hertz(50_000_000),
            r.spec_sysclk() == Hertz(50_000_000),
    {
        Clocks {
            hclk: MegaHertz(50).to_hertz(),
            pclk1: MegaHertz(25).to_hertz(),
            pclk2: MegaHertz(50).to_hertz(),
            sysclk: MegaHertz(50).to_hertz(),
        }
    }
}

/// A system tick count at some point in time, at a system clock frequency.
#[derive(Copy, Clone, Debug, PartialEq, Eq)]
pub struct Tick {
    counter: u32,
    sysclk_frequency: Hertz,
}

/// The ticks elapsed from `earlier` to `later`, with the counter wrapping.
pub open spec fn ticks_between(later: u32, earlier: u32) -> int {
    if later >= earlier {
        later - earlier
    } else {
        later - earlier + 0x1_0000_0000
    }
}

impl Tick {
    pub closed spec fn spec_counter(self) -> u32 {
        self.counter
    }

    pub closed spec fn spec_frequency(self) -> Hertz {
        self.sysclk_frequency
    }

    /// A tick count at a system clock frequency.
    pub fn new(counter: u32, sysclk_frequency: Hertz) -> (r: Self)
        ensures
            r.spec_counter() == counter,
            r.spec_frequency() == sysclk_frequency,
    {
        Tick { counter, sysclk_frequency }
    }

    /// Time elapsed since an earlier tick at the same frequency.
    pub fn sub(self, rhs: Self) -> (r: Milliseconds)
        requires
            self.spec_frequency() == rhs.spec_frequency(),
            self.spec_frequency().0 > 0,
            ticks_between(self.spec_counter(), rhs.spec_counter()) * 1000 <= u32::MAX,
        ensures
            r.0 == ticks_between(self.spec_counter(), rhs.spec_counter()) * 1000 / (self.spec_frequency().0 as int),
    {
        let difference = self.counter.wrapping_sub(rhs.counter);
        Milliseconds((difference * 1000u32) / self.sysclk_frequency.0)
    }

    /// The tick a duration later.
    pub fn add(self, rhs: Milliseconds) -> (r: Self)
        requires
            rhs.0 * self.spec_frequency().0 <= u32::MAX,
            self.spec_counter() + rhs.0 * self.spec_frequency().0 / 1000 <= u32::MAX,
        ensures
            r.spec_counter() == self.spec_counter() + rhs.0 * self.spec_frequency().0 / 1000,
            r.spec_frequency() == self.spec_frequency(),
    {
        let product = rhs.0 * self.sysclk_frequency.0;
        Tick { counter: self.counter + product / 1000u32, sysclk_frequency: self.sysclk_frequency }
    }
}

/// Serial word length.
#[derive(Copy, Clone, Debug, PartialEq, Eq)]
pub enum WordLength {
    DataBits8,
    DataBits9,
}

/// Serial parity.
#[derive(Copy, Clone, Debug, PartialEq, Eq)]
pub enum Parity {
    ParityNone,
    ParityEven,
    ParityOdd,
}

/// Serial stop bits.
#[derive(Copy, Clone, Debug, PartialEq, Eq)]
pub enum StopBits {
    /// 1 stop bit.
    STOP1,
    /// 0.5 stop bits.
    STOP0P5,
    /// 2 stop bits.
    STOP2,
    /// 1.5 stop bits.
    STOP1P5,
}

/// Serial errors.
#[derive(Copy, Clone, Debug, PartialEq, Eq)]
pub enum SerialError {
    Framing,
    Noise,
    Overrun,
    Parity,
}

/// Serial interrupt events.
#[derive(Copy, Clone, Debug, PartialEq, Eq)]
pub enum Event {
    /// New data has been received.
    Rxne,
    /// New data can be sent.
    Txe,
    /// Idle line state detected.
    Idle,
}

/// A serial configuration the hardware cannot take.
#[derive(Copy, Clone, Debug, PartialEq, Eq)]
pub struct InvalidConfig;

/// Configuration of a serial port.
#[derive(Copy, Clone, Debug, PartialEq, Eq)]
pub struct Config {
    pub baudrate: Bps,
    pub wordlength: WordLength,
    pub parity: Parity,
    pub stopbits: StopBits,
}

impl Default for Config {
    /// 19200 bps, 8 data bits, no parity, one stop bit.
    fn default() -> (r: Config)
        ensures
            r == (Config {
                baudrate: Bps(19_200),
                wordlength: WordLength::DataBits8,
                parity: Parity::ParityNone,
                stopbits: StopBits::STOP1,
            }),
    {
        Config {
            baudrate: Bps(19_200),
            wordlength: WordLength::DataBits8,
            parity: Parity::ParityNone,
            stopbits: StopBits::STOP1,
        }
    }
}

impl Config {
    pub fn baudrate(self, baudrate: Bps) -> (r: Self)
        ensures
            r == (Config { baudrate, ..self }),
    {
        Config { baudrate, ..self }
    }

    pub fn parity_none(self) -> (r: Self)
        ensures
            r == (Config { parity: Parity::ParityNone, ..self }),
    {
        Config { parity: Parity::ParityNone, ..self }
    }

    pub fn parity_even(self) -> (r: Self)
        ensures
            r == (Config { parity: Parity::ParityEven, ..self }),
    {
        Config { parity: Parity::ParityEven, ..self }
    }

    pub fn parity_odd(self) -> (r: Self)
        ensures
            r == (Config { parity: Parity::ParityOdd, ..self }),
    {
        Config { parity: Parity::ParityOdd, ..self }
    }

    pub fn wordlength_8(self) -> (r: Self)
        ensures
            r == (Config { wordlength: WordLength::DataBits8, ..self }),
    {
        Config { wordlength: WordLength::DataBits8, ..self }
    }

    pub fn wordlength_9(self) -> (r: Self)
        ensures
            r == (Config { wordlength: WordLength::DataBits9, ..self }),
    {
        Config { wordlength: WordLength::DataBits9, ..self }
    }

    pub fn stopbits(self, stopbits: StopBits) -> (r: Self)
        ensures
            r == (Config { stopbits, ..self }),
    {
        Config { stopbits, ..self }
    }

    /// The frame bits of the control register: nine bit words, parity
    /// enabled, odd parity.
    pub fn frame_bits(&self) -> (r: (bool, bool, bool))
        ensures
            r.0 == (self.wordlength == WordLength::DataBits9),
            r.1 == (self.parity != Parity::ParityNone),
            r.2 == (self.parity == Parity::ParityOdd),
    {
        (
            matches!(self.wordlength, WordLength::DataBits9),
            !matches!(self.parity, Parity::ParityNone),
            matches!(self.parity, Parity::ParityOdd),
        )
    }
}

/// The baud rate register divisor: the bus clock over the baud rate,
/// rounded to the nearest integer.
pub fn baud_divisor(pclk: Hertz, baudrate: Bps) -> (r: u32)
    requires
        baudrate.0 > 0,
        pclk.0 + baudrate.0 / 2 <= u32::MAX,
    ensures
        r == (pclk.0 + baudrate.0 / 2) / (baudrate.0 as int),
{
    (pclk.0 + baudrate.0 / 2) / baudrate.0
}


/// Adding a duration to a tick and measuring back from the original tick
/// gives the duration again, when the duration is a whole number of ticks.
pub proof fn lemma_add_then_sub(counter: u32, frequency: u32, ms: u32)
    requires
        frequency > 0,
        (ms * frequency) % 1000 == 0,
        counter + ms * frequency / 1000 <= u32::MAX,
        ms * frequency / 1000 * 1000 <= u32::MAX,
    ensures
        ticks_between((counter + ms * frequency / 1000) as u32, counter) * 1000 / (frequency as int) == ms,
{
    let t = ms * frequency / 1000;
    assert(ticks_between((counter + t) as u32, counter) == t);
    assert(t * 1000 == ms * frequency) by (nonlinear_arith)
        requires
            (ms * frequency) % 1000 == 0,
            t == ms * frequency / 1000,
    ;
    assert((ms * frequency) / (frequency as int) == ms) by (nonlinear_arith)
        requires
            frequency > 0,
    ;
}

} // verus!
