//! Interrupt vectors of the hardware lines handled by the kernel.
use vstd::prelude::*;

verus! {

/// First vector of the primary PIC (IRQ 0..7 map to 32..39).
pub const PIC_1_OFFSET: u8 = 32;

/// First vector of the secondary PIC (IRQ 8..15 map to 40..47).
pub const PIC_2_OFFSET: u8 = 40;

/// Hardware interrupt lines and their vectors.
#[derive(Debug, Clone, Copy)]
pub enum InterruptIndex {
    /// The interval timer (IRQ 0).
    Timer,
    /// The PS/2 keyboard (IRQ 1).
    Keyboard,
}

impl InterruptIndex {
    /// The vector of the line: the primary PIC's offset plus the IRQ number.
    pub open spec fn vector(self) -> u8 {
        match self {
            InterruptIndex::Timer => PIC_1_OFFSET,
            InterruptIndex::Keyboard => (PIC_1_OFFSET + 1) as u8,
        }
    }

    /// The vector as a byte.
    pub fn as_u8(self) -> (v: u8)
        ensures
            v == self.vector(),
    {
        match self {
            InterruptIndex::Timer => PIC_1_OFFSET,
            InterruptIndex::Keyboard => PIC_1_OFFSET + 1,
        }
    }

    /// The vector as a table index.
    pub fn as_usize(self) -> (v: usize)
        ensures
            v == self.vector(),
    {
        self.as_u8() as usize
    }
}

} // verus!
