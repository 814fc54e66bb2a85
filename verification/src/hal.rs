//! Devices of the simulated machine.
use vstd::prelude::*;
use vstd::string::*;
use crate::text::{hex, hex_byte, fmt_hex, fmt_hex_byte, char_string};

verus! {

/// A device found on the PCI bus.
#[derive(Debug, Clone, Copy)]
pub struct PciDevice {
    /// Bus number.
    pub bus: u8,
    /// Slot on the bus.
    pub slot: u8,
    /// Function within the slot.
    pub func: u8,
    /// Vendor identifier.
    pub vendor_id: u16,
    /// Device identifier.
    pub device_id: u16,
    /// Class code.
    pub class_code: u8,
    /// Subclass code.
    pub subclass: u8,
    /// Base address register 0.
    pub bar0: u32,
}

/// The PCI bus of the simulated machine.
pub struct PciBus;

impl PciBus {
    /// The devices on the simulated bus: one VGA-compatible display
    /// controller (vendor 0x10DE, device 0x2484) in slot 2 of bus 0.
    pub fn scan_devices() -> (devices: Vec<PciDevice>)
        ensures
            devices@ == seq![
                PciDevice {
                    bus: 0,
                    slot: 2,
                    func: 0,
                    vendor_id: 0x10DE,
                    device_id: 0x2484,
                    class_code: 0x03,
                    subclass: 0x00,
                    bar0: 0xFD00_0000,
                },
            ],
    {
        let mut devices: Vec<PciDevice> = Vec::new();
        devices.push(
            PciDevice {
                bus: 0,
                slot: 2,
                func: 0,
                vendor_id: 0x10DE,
                device_id: 0x2484,
                class_code: 0x03,
                subclass: 0x00,
                bar0: 0xFD00_0000,
            },
        );
        assert(devices@ =~= seq![
            PciDevice {
                bus: 0,
                slot: 2,
                func: 0,
                vendor_id: 0x10DE,
                device_id: 0x2484,
                class_code: 0x03,
                subclass: 0x00,
                bar0: 0xFD00_0000,
            },
        ]);
        devices
    }
}

/// The configuration-space address of register `offset` of function `func`
/// in slot `slot` of bus `bus`: the enable bit, then the bus, slot, function
/// and dword-aligned register fields.
pub fn config_address(bus: u8, slot: u8, func: u8, offset: u8) -> (a: u32)
    ensures
        slot < 32 && func < 8 ==> a == 0x8000_0000 + bus * 0x1_0000 + slot * 0x800 + func * 0x100
            + (offset / 4) * 4,
{
    let a = (1u32 << 31) | ((bus as u32) << 16) | ((slot as u32) << 11) | ((func as u32) << 8) | ((
    offset as u32) & 0xFC);
    proof {
        let b = bus as u32;
        let s = slot as u32;
        let f = func as u32;
        let o = offset as u32;
        assert(s < 32 && f < 8 && b < 256 && o < 256 ==> (1u32 << 31) | (b << 16) | (s << 11) | (f << 8) | (
        o & 0xFC) == 0x8000_0000 + b * 0x1_0000 + s * 0x800 + f * 0x100 + (o / 4) * 4) by (bit_vector);
    }
    a
}

/// The device that function `func` of slot `slot` on bus `bus` reports in
/// its identification dword `id`, class dword `class` and first base
/// address register `bar0`; none when the vendor field reads as absent
/// (all ones or all zeros).
pub open spec fn device_spec(bus: u8, slot: u8, func: u8, id: u32, class: u32, bar0: u32) -> Option<
    PciDevice,
> {
    let vendor = id % 0x1_0000;
    if vendor == 0xFFFF || vendor == 0 {
        None
    } else {
        Some(
            PciDevice {
                bus,
                slot,
                func,
                vendor_id: vendor as u16,
                device_id: (id / 0x1_0000) as u16,
                class_code: (class / 0x100_0000) as u8,
                subclass: ((class / 0x1_0000) % 0x100) as u8,
                bar0,
            },
        )
    }
}

/// Decodes the configuration registers read for one function.
pub fn device_from_config(bus: u8, slot: u8, func: u8, id: u32, class: u32, bar0: u32) -> (d: Option<
    PciDevice,
>)
    ensures
        d == device_spec(bus, slot, func, id, class, bar0),
{
    let vendor = (id & 0xFFFF) as u16;
    proof {
        assert(id & 0xFFFF == id % 0x1_0000) by (bit_vector);
        assert(id >> 16 == id / 0x1_0000) by (bit_vector);
        assert((class >> 24) & 0xFF == class / 0x100_0000) by (bit_vector);
        assert((class >> 16) & 0xFF == (class / 0x1_0000) % 0x100) by (bit_vector);
    }
    if vendor == 0xFFFF || vendor == 0x0000 {
        return None;
    }
    let device_id = (id >> 16) as u16;
    let class_code = ((class >> 24) & 0xFF) as u8;
    let subclass = ((class >> 16) & 0xFF) as u8;
    Some(PciDevice { bus, slot, func, vendor_id: vendor, device_id, class_code, subclass, bar0 })
}

/// How many functions a slot has, from its header-type dword: eight when
/// the multi-function bit (bit 23) is set, otherwise one.
pub fn function_count(header: u32) -> (n: u8)
    ensures
        n == if (header / 0x80_0000) % 2 == 1 {
            8u8
        } else {
            1u8
        },
{
    proof {
        assert((header & 0x0080_0000 != 0) == ((header / 0x80_0000) % 2 == 1)) by (bit_vector);
    }
    if header & 0x0080_0000 != 0 {
        8
    } else {
        1
    }
}

/// The devices found among the first `n` functions of a slot, given each
/// function's identification, class and first base address dwords.
pub open spec fn slot_functions(
    bus: u8,
    slot: u8,
    ids: Seq<u32>,
    classes: Seq<u32>,
    bars: Seq<u32>,
    n: int,
) -> Seq<PciDevice>
    decreases n,
{
    if n <= 0 {
        Seq::empty()
    } else {
        let prev = slot_functions(bus, slot, ids, classes, bars, n - 1);
        match device_spec(bus, slot, (n - 1) as u8, ids[n - 1], classes[n - 1], bars[n - 1]) {
            Some(d) => prev.push(d),
            None => prev,
        }
    }
}

/// The devices of one slot: none when function 0 is absent; otherwise the
/// present functions among the first one or eight, as the header type of
/// function 0 (`header`) says.
pub open spec fn slot_devices_spec(
    bus: u8,
    slot: u8,
    header: u32,
    ids: Seq<u32>,
    classes: Seq<u32>,
    bars: Seq<u32>,
) -> Seq<PciDevice> {
    if device_spec(bus, slot, 0, ids[0], classes[0], bars[0]) is None {
        Seq::empty()
    } else {
        slot_functions(
            bus,
            slot,
            ids,
            classes,
            bars,
            if (header / 0x80_0000) % 2 == 1 { 8 } else { 1 },
        )
    }
}

/// Lists the devices of one slot from the configuration dwords read for
/// its eight functions: identification (`ids`), class (`classes`) and first
/// base address (`bars`), with `header` the header-type dword of function 0.
pub fn slot_devices(
    bus: u8,
    slot: u8,
    header: u32,
    ids: &Vec<u32>,
    classes: &Vec<u32>,
    bars: &Vec<u32>,
) -> (devices: Vec<PciDevice>)
    requires
        ids@.len() == 8,
        classes@.len() == 8,
        bars@.len() == 8,
    ensures
        devices@ == slot_devices_spec(bus, slot, header, ids@, classes@, bars@),
{
    let mut devices: Vec<PciDevice> = Vec::new();
    if device_from_config(bus, slot, 0, ids[0], classes[0], bars[0]).is_none() {
        return devices;
    }
    let count = function_count(header);
    let mut f: u8 = 0;
    while f < count
        invariant
            count == 1 || count == 8,
            f <= count,
            ids@.len() == 8,
            classes@.len() == 8,
            bars@.len() == 8,
            devices@ == slot_functions(bus, slot, ids@, classes@, bars@, f as int),
        decreases count - f,
    {
        match device_from_config(bus, slot, f, ids[f as usize], classes[f as usize], bars[f as usize]) {
            Some(d) => devices.push(d),
            None => {},
        }
        f = f + 1;
    }
    devices
}

/// Physical address of the VGA text buffer.
pub const VGA_TEXT_BASE: usize = 0xB8000;

/// The trace a write of `character` with attribute `color_attribute` at
/// cell offset `offset` of the VGA text buffer leaves on the serial line:
/// the address in hexadecimal, the character (a byte read as Latin-1) in
/// quotes and the attribute as two hexadecimal digits.
pub open spec fn vga_trace(offset: usize, character: u8, color_attribute: u8) -> Seq<char> {
    "[VGA MMU WRITE] Address: 0x"@ + hex((VGA_TEXT_BASE + offset) as nat) + " | Char: '"@ + seq![
        character as char,
    ] + "' | ColorAttr: "@ + hex_byte(color_attribute) + "\n"@
}

/// The VGA text buffer of the simulated machine.
pub struct VgaBuffer;

impl VgaBuffer {
    /// Writing a character cell: the simulated buffer records the write as
    /// a trace line (see `vga_trace`), which the caller sends to the serial
    /// port.
    pub fn write_char(offset: usize, character: u8, color_attribute: u8) -> (trace: String)
        requires
            VGA_TEXT_BASE + offset <= usize::MAX,
        ensures
            trace@ == vga_trace(offset, character, color_attribute),
    {
        let address = VGA_TEXT_BASE + offset;
        let s = String::from_str("[VGA MMU WRITE] Address: 0x");
        let s = s.concat(fmt_hex(address).as_str());
        let s = s.concat(" | Char: '");
        let s = s.concat(char_string(character as char).as_str());
        let s = s.concat("' | ColorAttr: ");
        let s = s.concat(fmt_hex_byte(color_attribute).as_str());
        s.concat("\n")
    }
}

} // verus!
