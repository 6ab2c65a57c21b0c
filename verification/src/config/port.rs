//! Hardware targets a Loadstone build can be generated for.

use vstd::prelude::*;

verus! {

/// 1024 bytes.
pub const KB: u32 = 1024;

/// Top level description of the hardware target. Typically a chip
/// subfamily, but it may be more or less concrete depending on the
/// available drivers.
#[derive(Copy, Clone, Debug, PartialEq, Eq, Structural)]
pub enum Port {
    Stm32F412,
    Wgm160P,
    Maxim3263,
}

impl Default for Port {
    /// An arbitrary default port, to seed the defaults of the configuration tool.
    fn default() -> (r: Self)
        ensures
            r == Port::Stm32F412,
    {
        Port::Stm32F412
    }
}

/// Supported hardware families.
#[derive(Copy, Clone, Debug, PartialEq, Eq)]
pub enum Family {
    Stm32,
    Efm32,
    Maxim32,
}

/// Supported hardware subfamilies.
#[derive(Copy, Clone, Debug, PartialEq, Eq)]
pub enum Subfamily {
    Stm32f4,
    Efm32Gg11,
    Maxim3263,
}

/// A section of memory as the linker script defines it.
#[derive(Copy, Clone, Debug, PartialEq, Eq)]
pub struct LinkerArea {
    pub origin: u32,
    pub size: usize,
}

/// Constants propagated to the linker script for a port.
#[derive(Copy, Clone, Debug, PartialEq, Eq)]
pub struct LinkerScriptConstants {
    /// Available flash memory.
    pub flash: LinkerArea,
    /// Available RAM.
    pub ram: LinkerArea,
}

/// Every port, in declaration order.
pub fn all_ports() -> (r: Vec<Port>)
    ensures
        r@ == seq![Port::Stm32F412, Port::Wgm160P, Port::Maxim3263],
{
    let r = vec![Port::Stm32F412, Port::Wgm160P, Port::Maxim3263];
    assert(r@ =~= seq![Port::Stm32F412, Port::Wgm160P, Port::Maxim3263]);
    r
}

impl Port {
    /// The port's name as feature flags and generated code spell it.
    pub fn name(&self) -> (r: &'static str)
        ensures
            *self is Stm32F412 ==> r == "stm32f412",
            *self is Wgm160P ==> r == "wgm160p",
            *self is Maxim3263 ==> r == "maxim3263",
    {
        match self {
            Port::Stm32F412 => "stm32f412",
            Port::Wgm160P => "wgm160p",
            Port::Maxim3263 => "maxim3263",
        }
    }

    /// Hardware family of this port.
    pub fn family(&self) -> (r: Family)
        ensures
            *self is Stm32F412 ==> r == Family::Stm32,
            *self is Wgm160P ==> r == Family::Efm32,
            *self is Maxim3263 ==> r == Family::Maxim32,
    {
        match self {
            Port::Stm32F412 => Family::Stm32,
            Port::Wgm160P => Family::Efm32,
            Port::Maxim3263 => Family::Maxim32,
        }
    }

    /// Hardware subfamily of this port.
    pub fn subfamily(&self) -> (r: Subfamily)
        ensures
            *self is Stm32F412 ==> r == Subfamily::Stm32f4,
            *self is Wgm160P ==> r == Subfamily::Efm32Gg11,
            *self is Maxim3263 ==> r == Subfamily::Maxim3263,
    {
        match self {
            Port::Stm32F412 => Subfamily::Stm32f4,
            Port::Wgm160P => Subfamily::Efm32Gg11,
            Port::Maxim3263 => Subfamily::Maxim3263,
        }
    }

    /// Constants propagated to the linker script for this port: the
    /// sections of RAM and flash memory.
    pub fn linker_script_constants(&self) -> (r: Option<LinkerScriptConstants>)
        ensures
            *self is Stm32F412 ==> r == Some(LinkerScriptConstants {
                flash: LinkerArea { origin: 0x0800_0000, size: 917504usize },
                ram: LinkerArea { origin: 0x2000_0000, size: 262144usize },
            }),
            *self is Wgm160P ==> r == Some(LinkerScriptConstants {
                flash: LinkerArea { origin: 0, size: 1048576usize },
                ram: LinkerArea { origin: 0x2000_0000, size: 131072usize },
            }),
            *self is Maxim3263 ==> r == Some(LinkerScriptConstants {
                flash: LinkerArea { origin: 0, size: 2097152usize },
                ram: LinkerArea { origin: 0x2000_0000, size: 524288usize },
            }),
    {
        match self {
            Port::Stm32F412 => Some(LinkerScriptConstants {
                flash: LinkerArea { origin: 0x0800_0000, size: 896 * 1024 },
                ram: LinkerArea { origin: 0x2000_0000, size: 256 * 1024 },
            }),
            Port::Wgm160P => Some(LinkerScriptConstants {
                flash: LinkerArea { origin: 0, size: 1024 * 1024 },
                ram: LinkerArea { origin: 0x2000_0000, size: 128 * 1024 },
            }),
            Port::Maxim3263 => Some(LinkerScriptConstants {
                flash: LinkerArea { origin: 0, size: 2048 * 1024 },
                ram: LinkerArea { origin: 0x2000_0000, size: 512 * 1024 },
            }),
        }
    }
}

impl Family {
    /// The family's name as generated code spells it.
    pub fn name(&self) -> (r: &'static str)
        ensures
            *self is Stm32 ==> r == "stm32",
            *self is Efm32 ==> r == "efm32",
            *self is Maxim32 ==> r == "maxim32",
    {
        match self {
            Family::Stm32 => "stm32",
            Family::Efm32 => "efm32",
            Family::Maxim32 => "maxim32",
        }
    }
}

impl Subfamily {
    /// The subfamily's name as generated code spells it.
    pub fn name(&self) -> (r: &'static str)
        ensures
            *self is Stm32f4 ==> r == "f4",
            *self is Efm32Gg11 ==> r == "gg11",
            *self is Maxim3263 ==> r == "63",
    {
        match self {
            Subfamily::Stm32f4 => "f4",
            Subfamily::Efm32Gg11 => "gg11",
            Subfamily::Maxim3263 => "63",
        }
    }
}


/// The start of `memory.x`, up to the flash origin.
pub open spec fn script_head() -> Seq<u8> {
    seq![0x4D, 0x45, 0x4D, 0x4F, 0x52, 0x59, 0x0A, 0x7B, 0x0A, 0x20, 0x20, 0x20, 0x20, 0x46, 0x4C, 0x41, 0x53, 0x48, 0x20, 0x3A, 0x20, 0x4F, 0x52, 0x49, 0x47, 0x49, 0x4E, 0x20, 0x3D, 0x20, 0x30, 0x78]
}

/// Between an origin and its length.
pub open spec fn script_length() -> Seq<u8> {
    seq![0x2C, 0x20, 0x4C, 0x45, 0x4E, 0x47, 0x54, 0x48, 0x20, 0x3D, 0x20]
}

/// Between the flash length and the RAM origin.
pub open spec fn script_ram() -> Seq<u8> {
    seq![0x4B, 0x0A, 0x20, 0x20, 0x20, 0x20, 0x52, 0x41, 0x4D, 0x20, 0x3A, 0x20, 0x4F, 0x52, 0x49, 0x47, 0x49, 0x4E, 0x20, 0x3D, 0x20, 0x30, 0x78]
}

/// The end of `memory.x`.
pub open spec fn script_tail() -> Seq<u8> {
    seq![0x4B, 0x0A, 0x7D, 0x0A]
}

/// An uppercase hexadecimal digit.
pub open spec fn hex_digit(d: int) -> u8 {
    if d < 10 { (0x30 + d) as u8 } else { (0x41 + d - 10) as u8 }
}

/// The last `n` hexadecimal digits of `x`, most significant first.
pub open spec fn hex_digits(x: nat, n: nat) -> Seq<u8>
    decreases n,
{
    if n == 0 {
        Seq::empty()
    } else {
        hex_digits(x / 16, (n - 1) as nat).push(hex_digit((x % 16) as int))
    }
}

/// The decimal digits of `x`, most significant first.
pub open spec fn decimal_digits(x: nat) -> Seq<u8>
    decreases x,
{
    if x < 10 {
        seq![(0x30 + x) as u8]
    } else {
        decimal_digits(x / 10).push((0x30 + x % 10) as u8)
    }
}

/// The text of the linker script `memory.x`: the flash and RAM areas, each
/// with its origin in eight hexadecimal digits and its length in whole
/// kilobytes.
pub open spec fn linker_script_spec(c: LinkerScriptConstants) -> Seq<u8> {
    script_head() + hex_digits(c.flash.origin as nat, 8) + script_length() + decimal_digits((c.flash.size / 1024) as nat)
        + script_ram() + hex_digits(c.ram.origin as nat, 8) + script_length() + decimal_digits((c.ram.size / 1024) as nat)
        + script_tail()
}

/// Appends bytes.
fn push_all(out: &mut Vec<u8>, bytes: &[u8])
    ensures
        final(out)@ == old(out)@ + bytes@,
{
    let mut i: usize = 0;
    while i < bytes.len()
        invariant
            i <= bytes@.len(),
            out@ == old(out)@ + bytes@.subrange(0, i as int),
        decreases bytes@.len() - i,
    {
        out.push(bytes[i]);
        i = i + 1;
        assert(out@ =~= old(out)@ + bytes@.subrange(0, i as int));
    }
    assert(bytes@.subrange(0, bytes@.len() as int) =~= bytes@);
}

/// Appends the last `n` hexadecimal digits of `x`.
fn push_hex(out: &mut Vec<u8>, x: u32, n: u32)
    ensures
        final(out)@ == old(out)@ + hex_digits(x as nat, n as nat),
    decreases n,
{
    if n > 0 {
        push_hex(out, x / 16, n - 1);
        let d = (x % 16) as u8;
        let digit = if d < 10 { 0x30 + d } else { 0x41 + d - 10 };
        out.push(digit);
        assert(out@ =~= old(out)@ + hex_digits(x as nat, n as nat));
    } else {
        assert(out@ =~= old(out)@ + hex_digits(x as nat, n as nat));
    }
}

/// Appends the decimal digits of `x`.
fn push_decimal(out: &mut Vec<u8>, x: usize)
    ensures
        final(out)@ == old(out)@ + decimal_digits(x as nat),
    decreases x,
{
    if x >= 10 {
        push_decimal(out, x / 10);
    }
    out.push((0x30 + x % 10) as u8);
    assert(out@ =~= old(out)@ + decimal_digits(x as nat));
}

/// The text of the linker script `memory.x` for the given memory areas.
pub fn linker_script(constants: &LinkerScriptConstants) -> (r: Vec<u8>)
    ensures
        r@ == linker_script_spec(*constants),
{
    let head: [u8; 32] = [0x4D, 0x45, 0x4D, 0x4F, 0x52, 0x59, 0x0A, 0x7B, 0x0A, 0x20, 0x20, 0x20, 0x20, 0x46, 0x4C, 0x41, 0x53, 0x48, 0x20, 0x3A, 0x20, 0x4F, 0x52, 0x49, 0x47, 0x49, 0x4E, 0x20, 0x3D, 0x20, 0x30, 0x78];
    let length: [u8; 11] = [0x2C, 0x20, 0x4C, 0x45, 0x4E, 0x47, 0x54, 0x48, 0x20, 0x3D, 0x20];
    let ram: [u8; 23] = [0x4B, 0x0A, 0x20, 0x20, 0x20, 0x20, 0x52, 0x41, 0x4D, 0x20, 0x3A, 0x20, 0x4F, 0x52, 0x49, 0x47, 0x49, 0x4E, 0x20, 0x3D, 0x20, 0x30, 0x78];
    let tail: [u8; 4] = [0x4B, 0x0A, 0x7D, 0x0A];
    assert(head@ =~= script_head());
    assert(length@ =~= script_length());
    assert(ram@ =~= script_ram());
    assert(tail@ =~= script_tail());
    let mut out: Vec<u8> = Vec::new();
    push_all(&mut out, &head);
    push_hex(&mut out, constants.flash.origin, 8);
    push_all(&mut out, &length);
    push_decimal(&mut out, constants.flash.size / 1024);
    push_all(&mut out, &ram);
    push_hex(&mut out, constants.ram.origin, 8);
    push_all(&mut out, &length);
    push_decimal(&mut out, constants.ram.size / 1024);
    push_all(&mut out, &tail);
    assert(out@ =~= linker_script_spec(*constants));
    out
}

} // verus!
