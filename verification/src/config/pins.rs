//! Pins that a port can route its peripherals to.

use vstd::prelude::*;
use crate::config::port::Port;
use vstd::string::StringExecFns;

verus! {

/// A pin configured to perform a specific peripheral function (as opposed
/// to a raw input/output).
#[derive(Clone, Debug, PartialEq, Eq)]
pub struct PeripheralPin {
    /// Associated peripheral (USART1, QSPI...).
    pub peripheral: String,
    /// Pin bank (the "b" in PB1).
    pub bank: String,
    /// Pin index (the 1 in PB1).
    pub index: u32,
    /// Alternate function when the pin is configured to use it.
    pub af_index: u32,
}

/// `p` is the given pin.
pub open spec fn pin_is(p: PeripheralPin, peripheral: &str, bank: &str, index: u32, af_index: u32) -> bool {
    &&& p.peripheral@ == peripheral@
    &&& p.bank@ == bank@
    &&& p.index == index
    &&& p.af_index == af_index
}

/// Builds a pin description.
pub fn peripheral_pin(peripheral: &str, bank: &str, index: u32, af_index: u32) -> (r: PeripheralPin)
    ensures
        pin_is(r, peripheral, bank, index, af_index),
{
    PeripheralPin { peripheral: peripheral.to_owned(), bank: bank.to_owned(), index, af_index }
}

/// The possible serial transmission pins of a port.
pub fn serial_tx(port: &Port) -> (r: Vec<PeripheralPin>)
    ensures
        !(*port is Stm32F412) ==> r@.len() == 0,
        *port is Stm32F412 ==> {
            &&& r@.len() == 8
            &&& pin_is(r@[0], "USART1", "a", 9, 7)
            &&& pin_is(r@[1], "USART1", "b", 6, 7)
            &&& pin_is(r@[2], "USART2", "a", 2, 7)
            &&& pin_is(r@[3], "USART2", "d", 5, 7)
            &&& pin_is(r@[4], "USART1", "a", 15, 6)
            &&& pin_is(r@[5], "USART6", "c", 6, 8)
            &&& pin_is(r@[6], "USART6", "a", 11, 8)
            &&& pin_is(r@[7], "USART6", "g", 14, 8)
        },
{
    match port {
        Port::Stm32F412 => vec![
            peripheral_pin("USART1", "a", 9, 7),
            peripheral_pin("USART1", "b", 6, 7),
            peripheral_pin("USART2", "a", 2, 7),
            peripheral_pin("USART2", "d", 5, 7),
            peripheral_pin("USART1", "a", 15, 6),
            peripheral_pin("USART6", "c", 6, 8),
            peripheral_pin("USART6", "a", 11, 8),
            peripheral_pin("USART6", "g", 14, 8),
        ],
        _ => Vec::new(),
    }
}

/// The possible serial reception pins of a port.
pub fn serial_rx(port: &Port) -> (r: Vec<PeripheralPin>)
    ensures
        !(*port is Stm32F412) ==> r@.len() == 0,
        *port is Stm32F412 ==> {
            &&& r@.len() == 8
            &&& pin_is(r@[0], "USART1", "b", 3, 7)
            &&& pin_is(r@[1], "USART1", "b", 7, 7)
            &&& pin_is(r@[2], "USART1", "a", 10, 7)
            &&& pin_is(r@[3], "USART2", "a", 3, 7)
            &&& pin_is(r@[4], "USART2", "d", 6, 7)
            &&& pin_is(r@[5], "USART6", "c", 7, 8)
            &&& pin_is(r@[6], "USART6", "a", 12, 8)
            &&& pin_is(r@[7], "USART6", "g", 9, 8)
        },
{
    match port {
        Port::Stm32F412 => vec![
            peripheral_pin("USART1", "b", 3, 7),
            peripheral_pin("USART1", "b", 7, 7),
            peripheral_pin("USART1", "a", 10, 7),
            peripheral_pin("USART2", "a", 3, 7),
            peripheral_pin("USART2", "d", 6, 7),
            peripheral_pin("USART6", "c", 7, 8),
            peripheral_pin("USART6", "a", 12, 8),
            peripheral_pin("USART6", "g", 9, 8),
        ],
        _ => Vec::new(),
    }
}

/// The pins of a QSPI flash interface.
#[derive(Clone, Debug, PartialEq, Eq)]
pub struct QspiPins {
    pub clk: PeripheralPin,
    pub bk1_cs: PeripheralPin,
    pub bk1_io0: PeripheralPin,
    pub bk1_io1: PeripheralPin,
    pub bk1_io2: PeripheralPin,
    pub bk1_io3: PeripheralPin,
}

impl QspiPins {
    /// The QSPI pins of the STM32F412 discovery board's external flash.
    pub fn create(port: Port) -> (r: Self)
        requires
            port is Stm32F412,
        ensures
            pin_is(r.clk, "QSPI", "b", 2, 9),
            pin_is(r.bk1_cs, "QSPI", "g", 6, 10),
            pin_is(r.bk1_io0, "QSPI", "f", 8, 10),
            pin_is(r.bk1_io1, "QSPI", "f", 9, 10),
            pin_is(r.bk1_io2, "QSPI", "f", 7, 9),
            pin_is(r.bk1_io3, "QSPI", "f", 6, 9),
    {
        QspiPins {
            clk: peripheral_pin("QSPI", "b", 2, 9),
            bk1_cs: peripheral_pin("QSPI", "g", 6, 10),
            bk1_io0: peripheral_pin("QSPI", "f", 8, 10),
            bk1_io1: peripheral_pin("QSPI", "f", 9, 10),
            bk1_io2: peripheral_pin("QSPI", "f", 7, 9),
            bk1_io3: peripheral_pin("QSPI", "f", 6, 9),
        }
    }
}

/// The possible pins for each QSPI line.
pub struct QspiPinOptions {
    pub clk: Vec<PeripheralPin>,
    pub bk1_cs: Vec<PeripheralPin>,
    pub bk1_io0: Vec<PeripheralPin>,
    pub bk1_io1: Vec<PeripheralPin>,
    pub bk1_io2: Vec<PeripheralPin>,
    pub bk1_io3: Vec<PeripheralPin>,
}

/// The possible QSPI pins of a port.
pub fn qspi(port: Port) -> (r: QspiPinOptions)
    ensures
        !(port is Stm32F412) ==> r.clk@.len() == 0 && r.bk1_cs@.len() == 0 && r.bk1_io0@.len() == 0
            && r.bk1_io1@.len() == 0 && r.bk1_io2@.len() == 0 && r.bk1_io3@.len() == 0,
        port is Stm32F412 ==> {
            &&& r.clk@.len() == 3
            &&& pin_is(r.clk@[0], "QSPI", "b", 1, 9)
            &&& pin_is(r.clk@[1], "QSPI", "b", 2, 9)
            &&& pin_is(r.clk@[2], "QSPI", "d", 3, 9)
            &&& r.bk1_cs@.len() == 2
            &&& pin_is(r.bk1_cs@[0], "QSPI", "b", 6, 10)
            &&& pin_is(r.bk1_cs@[1], "QSPI", "g", 6, 10)
            &&& r.bk1_io0@.len() == 3
            &&& pin_is(r.bk1_io0@[0], "QSPI", "c", 9, 9)
            &&& pin_is(r.bk1_io0@[1], "QSPI", "d", 11, 9)
            &&& pin_is(r.bk1_io0@[2], "QSPI", "f", 8, 10)
            &&& r.bk1_io1@.len() == 3
            &&& pin_is(r.bk1_io1@[0], "QSPI", "c", 10, 9)
            &&& pin_is(r.bk1_io1@[1], "QSPI", "d", 12, 9)
            &&& pin_is(r.bk1_io1@[2], "QSPI", "f", 9, 10)
            &&& r.bk1_io2@.len() == 3
            &&& pin_is(r.bk1_io2@[0], "QSPI", "c", 8, 9)
            &&& pin_is(r.bk1_io2@[1], "QSPI", "e", 2, 9)
            &&& pin_is(r.bk1_io2@[2], "QSPI", "f", 7, 9)
            &&& r.bk1_io3@.len() == 3
            &&& pin_is(r.bk1_io3@[0], "QSPI", "a", 1, 10)
            &&& pin_is(r.bk1_io3@[1], "QSPI", "d", 13, 10)
            &&& pin_is(r.bk1_io3@[2], "QSPI", "f", 6, 9)
        },
{
    match port {
        Port::Stm32F412 => QspiPinOptions {
            clk: vec![
                peripheral_pin("QSPI", "b", 1, 9),
                peripheral_pin("QSPI", "b", 2, 9),
                peripheral_pin("QSPI", "d", 3, 9),
            ],
            bk1_cs: vec![peripheral_pin("QSPI", "b", 6, 10), peripheral_pin("QSPI", "g", 6, 10)],
            bk1_io0: vec![
                peripheral_pin("QSPI", "c", 9, 9),
                peripheral_pin("QSPI", "d", 11, 9),
                peripheral_pin("QSPI", "f", 8, 10),
            ],
            bk1_io1: vec![
                peripheral_pin("QSPI", "c", 10, 9),
                peripheral_pin("QSPI", "d", 12, 9),
                peripheral_pin("QSPI", "f", 9, 10),
            ],
            bk1_io2: vec![
                peripheral_pin("QSPI", "c", 8, 9),
                peripheral_pin("QSPI", "e", 2, 9),
                peripheral_pin("QSPI", "f", 7, 9),
            ],
            bk1_io3: vec![
                peripheral_pin("QSPI", "a", 1, 10),
                peripheral_pin("QSPI", "d", 13, 10),
                peripheral_pin("QSPI", "f", 6, 9),
            ],
        },
        _ => QspiPinOptions {
            clk: Vec::new(),
            bk1_cs: Vec::new(),
            bk1_io0: Vec::new(),
            bk1_io1: Vec::new(),
            bk1_io2: Vec::new(),
            bk1_io3: Vec::new(),
        },
    }
}

/// The character of a decimal digit.
pub open spec fn digit_char(d: nat) -> char {
    if d == 0 { '0' } else if d == 1 { '1' } else if d == 2 { '2' } else if d == 3 { '3' } else if d == 4 { '4' }
    else if d == 5 { '5' } else if d == 6 { '6' } else if d == 7 { '7' } else if d == 8 { '8' } else { '9' }
}

/// A number written in decimal, without leading zeros.
pub open spec fn decimal_chars(n: nat) -> Seq<char>
    decreases n,
{
    if n < 10 {
        seq![digit_char(n)]
    } else {
        decimal_chars(n / 10) + seq![digit_char(n % 10)]
    }
}

/// The text of a decimal digit.
fn digit_str(d: u32) -> (r: &'static str)
    requires
        d < 10,
    ensures
        r@ == seq![digit_char(d as nat)],
{
    proof {
        reveal_strlit("0");
        reveal_strlit("1");
        reveal_strlit("2");
        reveal_strlit("3");
        reveal_strlit("4");
        reveal_strlit("5");
        reveal_strlit("6");
        reveal_strlit("7");
        reveal_strlit("8");
        reveal_strlit("9");
    }
    if d == 0 { "0" } else if d == 1 { "1" } else if d == 2 { "2" } else if d == 3 { "3" } else if d == 4 { "4" }
    else if d == 5 { "5" } else if d == 6 { "6" } else if d == 7 { "7" } else if d == 8 { "8" } else { "9" }
}

/// Appends `n`, written in decimal, to `text`.
fn append_decimal(text: &mut String, n: u32)
    ensures
        final(text)@ == old(text)@ + decimal_chars(n as nat),
    decreases n,
{
    if n >= 10 {
        append_decimal(text, n / 10);
    }
    text.append(digit_str(n % 10));
    proof {
        assert(old(text)@ + decimal_chars(n as nat) =~= if n >= 10 {
            old(text)@ + decimal_chars((n / 10) as nat) + seq![digit_char((n % 10) as nat)]
        } else {
            old(text)@ + seq![digit_char((n % 10) as nat)]
        });
    }
}

/// The names a pin goes by in generated code: the pin itself (`P`, its
/// bank and its index, as in `PB2`) and its alternate function (`AF` and
/// its number, as in `AF9`).
pub fn pin_tokens(p: &PeripheralPin) -> (r: (String, String))
    ensures
        r.0@ == seq!['P'] + p.bank@ + decimal_chars(p.index as nat),
        r.1@ == seq!['A', 'F'] + decimal_chars(p.af_index as nat),
{
    proof {
        reveal_strlit("P");
        reveal_strlit("AF");
    }
    let mut pin = String::from_str("P");
    pin.append(p.bank.as_str());
    append_decimal(&mut pin, p.index);
    let mut af = String::from_str("AF");
    append_decimal(&mut af, p.af_index);
    (pin, af)
}

/// Two pin descriptions name the same pin.
pub open spec fn same_pin(a: PeripheralPin, b: PeripheralPin) -> bool {
    &&& a.peripheral@ == b.peripheral@
    &&& a.bank@ == b.bank@
    &&& a.index == b.index
    &&& a.af_index == b.af_index
}

/// `p` is one of `chosen`.
pub open spec fn is_chosen(chosen: Seq<PeripheralPin>, p: PeripheralPin) -> bool {
    exists|j: int| 0 <= j < chosen.len() && same_pin(#[trigger] chosen[j], p)
}

/// The pins of `list` that are not among `chosen`, in their order.
pub open spec fn without_chosen(list: Seq<PeripheralPin>, chosen: Seq<PeripheralPin>) -> Seq<PeripheralPin>
    decreases list.len(),
{
    if list.len() == 0 {
        Seq::empty()
    } else {
        let rest = without_chosen(list.drop_last(), chosen);
        if is_chosen(chosen, list.last()) { rest } else { rest.push(list.last()) }
    }
}

/// The six QSPI lines' pins, in the order clk, bk1_cs, bk1_io0 to bk1_io3.
pub open spec fn qspi_lines(p: QspiPins) -> Seq<PeripheralPin> {
    seq![p.clk, p.bk1_cs, p.bk1_io0, p.bk1_io1, p.bk1_io2, p.bk1_io3]
}

/// The six QSPI lines' options, in the same order.
pub open spec fn qspi_option_lists(o: QspiPinOptions) -> Seq<Seq<PeripheralPin>> {
    seq![o.clk@, o.bk1_cs@, o.bk1_io0@, o.bk1_io1@, o.bk1_io2@, o.bk1_io3@]
}

/// Whether two pin descriptions name the same pin.
fn pins_equal(a: &PeripheralPin, b: &PeripheralPin) -> (r: bool)
    ensures
        r == same_pin(*a, *b),
{
    a.peripheral == b.peripheral && a.bank == b.bank && a.index == b.index && a.af_index == b.af_index
}

/// A copy of a pin description.
fn copy_pin(p: &PeripheralPin) -> (r: PeripheralPin)
    ensures
        r == *p,
{
    PeripheralPin { peripheral: p.peripheral.clone(), bank: p.bank.clone(), index: p.index, af_index: p.af_index }
}

/// The pins of `list` that are not among `chosen`.
fn unchosen(list: &Vec<PeripheralPin>, chosen: &Vec<PeripheralPin>) -> (r: Vec<PeripheralPin>)
    ensures
        r@ == without_chosen(list@, chosen@),
{
    let mut out: Vec<PeripheralPin> = Vec::new();
    let mut i: usize = 0;
    while i < list.len()
        invariant
            i <= list@.len(),
            out@ == without_chosen(list@.subrange(0, i as int), chosen@),
        decreases list@.len() - i,
    {
        let mut taken = false;
        let mut j: usize = 0;
        while j < chosen.len()
            invariant
                i < list@.len(),
                j <= chosen@.len(),
                taken == exists|k: int| 0 <= k < j && same_pin(#[trigger] chosen@[k], list@[i as int]),
            decreases chosen@.len() - j,
        {
            if pins_equal(&chosen[j], &list[i]) {
                taken = true;
            }
            j = j + 1;
        }
        proof {
            assert(list@.subrange(0, i + 1).drop_last() =~= list@.subrange(0, i as int));
            assert(list@.subrange(0, i + 1).last() == list@[i as int]);
        }
        if !taken {
            out.push(copy_pin(&list[i]));
        }
        i = i + 1;
    }
    assert(list@.subrange(0, list@.len() as int) =~= list@);
    out
}

/// The pins each QSPI line can still be moved to: its options in
/// `available` (as [`qspi`] gives them for a port) less the pins already
/// chosen for any line, in the order clk, bk1_cs, bk1_io0 to bk1_io3.
pub fn qspi_pin_alternatives(available: &QspiPinOptions, chosen: &QspiPins) -> (r: Vec<Vec<PeripheralPin>>)
    ensures
        r@.len() == 6,
        forall|i: int| 0 <= i < 6 ==> #[trigger] r@[i]@ == without_chosen(qspi_option_lists(*available)[i], qspi_lines(*chosen)),
{
    let taken = vec![
        copy_pin(&chosen.clk),
        copy_pin(&chosen.bk1_cs),
        copy_pin(&chosen.bk1_io0),
        copy_pin(&chosen.bk1_io1),
        copy_pin(&chosen.bk1_io2),
        copy_pin(&chosen.bk1_io3),
    ];
    assert(taken@ =~= qspi_lines(*chosen));
    let r = vec![
        unchosen(&available.clk, &taken),
        unchosen(&available.bk1_cs, &taken),
        unchosen(&available.bk1_io0, &taken),
        unchosen(&available.bk1_io1, &taken),
        unchosen(&available.bk1_io2, &taken),
        unchosen(&available.bk1_io3, &taken),
    ];
    r
}

} // verus!
