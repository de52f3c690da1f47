//! The memory bus: one flat array per region of the 16-bit address space.

use vstd::prelude::*;

verus! {

/// The memory behind the bus, region by region.
pub struct Bus {
    pub bank: [u8; 0x7FFF],
    pub vram: [u8; 0x2000],
    pub external_ram: [u8; 0x2000],
    pub wram: [u8; 0x2000],
    pub oam: [u8; 0xA0],
    pub io: [u8; 0x80],
    pub hram: [u8; 0x7F],
    pub interrupt_enable: u8,
}

/// Whether a byte stands behind `addr`. Nothing does behind 0x7FFF, which
/// lies past the end of the bank array, nor in the unused gap from 0xFEA0 to
/// 0xFEFF.
pub open spec fn mapped(addr: u16) -> bool {
    addr < 0x7FFF || 0x8000 <= addr < 0xFEA0 || 0xFF00 <= addr
}

impl Bus {
    /// The byte behind a mapped address: each region's array is indexed from
    /// the region's first address, and 0xE000 to 0xFDFF mirrors the work RAM.
    pub open spec fn byte_at(&self, addr: u16) -> u8
        recommends
            mapped(addr),
    {
        if addr <= 0x7FFF {
            self.bank@[addr as int]
        } else if addr <= 0x9FFF {
            self.vram@[addr - 0x8000]
        } else if addr <= 0xBFFF {
            self.external_ram@[addr - 0xA000]
        } else if addr <= 0xDFFF {
            self.wram@[addr - 0xC000]
        } else if addr <= 0xFDFF {
            self.wram@[addr - 0xE000]
        } else if addr <= 0xFEFF {
            self.oam@[addr - 0xFE00]
        } else if addr <= 0xFF7F {
            self.io@[addr - 0xFF00]
        } else if addr <= 0xFFFE {
            self.hram@[addr - 0xFF80]
        } else {
            self.interrupt_enable
        }
    }

    /// A bus on which every byte is zero.
    pub fn new() -> (bus: Bus)
        ensures
            forall|addr: u16| mapped(addr) ==> #[trigger] bus.byte_at(addr) == 0,
    {
        Bus {
            bank: [0u8;0x7FFF],
            vram: [0u8;0x2000],
            external_ram: [0u8;0x2000],
            wram: [0u8;0x2000],
            oam: [0u8;0xA0],
            io: [0u8;0x80],
            hram: [0u8;0x7F],
            interrupt_enable: 0,
        }
    }

    /// Whether a byte stands behind `addr`.
    pub fn is_mapped(addr: u16) -> (b: bool)
        ensures
            b == mapped(addr),
    {
        addr < 0x7FFF || (0x8000 <= addr && addr < 0xFEA0) || 0xFF00 <= addr
    }

    /// Reads the byte behind a mapped address.
    pub fn read(&self, addr: u16) -> (byte: u8)
        requires
            mapped(addr),
        ensures
            byte == self.byte_at(addr),
    {
        if addr <= 0x7FFF {
            self.bank[addr as usize]
        } else if addr <= 0x9FFF {
            self.vram[(addr - 0x8000) as usize]
        } else if addr <= 0xBFFF {
            self.external_ram[(addr - 0xA000) as usize]
        } else if addr <= 0xDFFF {
            self.wram[(addr - 0xC000) as usize]
        } else if addr <= 0xFDFF {
            self.wram[(addr - 0xE000) as usize]  // prohibited to write here
        } else if addr <= 0xFE9F {
            self.oam[(addr - 0xFE00) as usize]
        } else if addr <= 0xFF7F {
            self.io[(addr - 0xFF00) as usize]
        } else if addr <= 0xFFFE {
            self.hram[(addr - 0xFF80) as usize]
        } else {
            self.interrupt_enable
        }
    }
}

} // verus!
