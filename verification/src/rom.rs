//! The cartridge image: its header at bytes 0x100 to 0x14F and the bank data
//! behind it.

use vstd::prelude::*;
use vstd::arithmetic::power2::{lemma2_to64, pow2};

verus! {

/// The first byte of the header.
pub const HEADER_START: usize = 0x100;

/// The first byte behind the header, where the bank data begins.
pub const HEADER_END: usize = 0x150;

/// Why a cartridge image was refused.
#[derive(Debug, Clone, Copy, PartialEq, Eq, Structural)]
pub enum RomError {
    /// The image ends before the header does.
    Truncated,
    /// The byte at 0x146 is neither 0x00 nor 0x03.
    UnknownSgbFlag,
    /// The byte at 0x148 names no ROM size.
    InvalidRomSize,
    /// The byte at 0x149 names no RAM size.
    InvalidRamSize,
    /// The byte at 0x14A is neither 0x00 nor 0x01.
    InvalidDestinationCode,
    /// The byte at 0x14D is not the checksum of bytes 0x134 to 0x14C.
    InvalidHeaderChecksum,
}

/// The size of the cartridge's ROM in bytes and in banks.
#[derive(Debug, Clone, Copy, PartialEq, Eq, Structural)]
pub struct RomSize {
    pub size: usize,
    pub num_of_banks: usize,
}

/// The decoded header of a cartridge image.
#[derive(Debug, Clone, Copy)]
pub struct RomHeader {
    pub entry_point: [u8; 4],  // 0x0100-0x0103
    pub logo: [u8; 48],  // 0x0104-0x0133
    pub title: [u8; 11],  // 0x0134-0x013E
    pub manufacturer_code: [u8; 4],  // 0x013F-0x0142
    pub cgb_flag: bool,  // 0x0143
    pub new_licensee_code: [u8; 2],  // 0x0144-0x0145
    pub sgb_flag: bool,  // 0x0146
    pub cartridge_type: usize,  // 0x0147
    pub rom_size: RomSize,  // 0x0148
    pub ram_size: usize,  // 0x0149
    pub destination_code: usize,  // 0x014A
    pub old_licensee_code: usize,  // 0x014B
    pub mask_rom_version: usize,  // 0x014C
    pub header_checksum: usize,  // 0x014D
    pub global_checksum: [u8; 2],  // 0x014E-0x014F
}

/// A cartridge image: its header and its bank data.
#[derive(Debug)]
pub struct Rom {
    header: RomHeader,
    bank: Vec<u8>,
}

/// The header's byte fields that are shown as text, each as lowercase hex.
#[derive(Debug, PartialEq, Eq)]
pub struct HexFields {
    pub entry_point: String,
    pub logo: String,
    pub title: String,
    pub manufacturer_code: String,
    pub new_licensee_code: String,
}

/// The lowercase hex digit of a value below sixteen.
pub open spec fn hex_digit(n: int) -> char
    recommends
        0 <= n < 16,
{
    seq!['0', '1', '2', '3', '4', '5', '6', '7', '8', '9', 'a', 'b', 'c', 'd', 'e', 'f'][n]
}

/// Bytes as lowercase hex text: two digits for each byte, the high half
/// first.
pub open spec fn hex_text(data: Seq<u8>) -> Seq<char> {
    Seq::new(
        2 * data.len(),
        |i: int|
            if i % 2 == 0 {
                hex_digit(data[i / 2] as int / 16)
            } else {
                hex_digit(data[i / 2] as int % 16)
            },
    )
}

/// Calls `hex::encode`. Believed of it, not proved: the text it returns holds
/// two lowercase hex digits for each byte of `data`, in order, the high half
/// of a byte before the low half.
#[verifier::external_body]
fn hex_encode(data: &[u8]) -> (text: String)
    ensures
        text@ == hex_text(data@),
{
    hex::encode(data)
}

/// `n` zero bytes.
pub open spec fn zeros(n: nat) -> Seq<u8> {
    Seq::new(n, |i: int| 0u8)
}

/// The ROM size that the byte at 0x148 names, if it names one.
pub open spec fn rom_size_of(code: u8) -> Option<(int, int)> {
    if code <= 0x08 {
        Some(((32768 * pow2(code as nat)) as int, (2 * pow2(code as nat)) as int))
    } else if code == 0x52 {
        Some((1153433, 72))
    } else if code == 0x53 {
        Some((1258291, 80))
    } else if code == 0x54 {
        Some((1572864, 96))
    } else {
        None
    }
}

/// The RAM size in bytes that the byte at 0x149 names, if it names one.
pub open spec fn ram_size_of(code: u8) -> Option<int> {
    if code == 0x00 {
        Some(0)
    } else if code == 0x01 {
        Some((2 * 1024 * 1024) as int)
    } else if code == 0x02 {
        Some((8 * 1024 * 1024) as int)
    } else if code == 0x03 {
        Some((32 * 1024 * 1024) as int)
    } else if code == 0x04 {
        Some((128 * 1024 * 1024) as int)
    } else if code == 0x05 {
        Some((64 * 1024 * 1024) as int)
    } else {
        None
    }
}

/// The header checksum over the bytes from 0x134 up to, not including, `end`:
/// starting from zero, each byte and one more are subtracted modulo 256.
pub open spec fn checksum_to(rom: Seq<u8>, end: int) -> int
    decreases end - 0x134,
{
    if end <= 0x134 {
        0
    } else {
        (checksum_to(rom, end - 1) - rom[end - 1] - 1) % 256
    }
}

/// The checksum of the header, over bytes 0x134 to 0x14C.
pub open spec fn header_checksum_of(rom: Seq<u8>) -> int {
    checksum_to(rom, 0x14D)
}

/// The first reason, in header order, for which an image is refused.
pub open spec fn header_error(rom: Seq<u8>) -> Option<RomError> {
    if rom.len() < HEADER_END {
        Some(RomError::Truncated)
    } else if rom[0x146] != 0x00 && rom[0x146] != 0x03 {
        Some(RomError::UnknownSgbFlag)
    } else if rom_size_of(rom[0x148]) is None {
        Some(RomError::InvalidRomSize)
    } else if ram_size_of(rom[0x149]) is None {
        Some(RomError::InvalidRamSize)
    } else if rom[0x14A] != 0x00 && rom[0x14A] != 0x01 {
        Some(RomError::InvalidDestinationCode)
    } else if header_checksum_of(rom) != rom[0x14D] {
        Some(RomError::InvalidHeaderChecksum)
    } else {
        None
    }
}

/// `header` is what the header bytes of `rom` say, field by field.
pub open spec fn header_matches(header: RomHeader, rom: Seq<u8>) -> bool {
    &&& header.entry_point@ == rom.subrange(0x100, 0x104)
    &&& header.logo@ == rom.subrange(0x104, 0x134)
    &&& header.title@ == rom.subrange(0x134, 0x13F)
    &&& header.manufacturer_code@ == rom.subrange(0x13F, 0x143)
    &&& header.cgb_flag == (rom[0x143] == 0x80 || rom[0x143] == 0xC0)
    &&& header.new_licensee_code@ == rom.subrange(0x144, 0x146)
    &&& header.sgb_flag == (rom[0x146] == 0x03)
    &&& header.cartridge_type == rom[0x147]
    &&& rom_size_of(rom[0x148]) == Some(
        (header.rom_size.size as int, header.rom_size.num_of_banks as int),
    )
    &&& ram_size_of(rom[0x149]) == Some(header.ram_size as int)
    &&& header.destination_code == rom[0x14A]
    &&& header.old_licensee_code == rom[0x14B]
    &&& header.mask_rom_version == rom[0x14C]
    &&& header.header_checksum == rom[0x14D]
    &&& header.global_checksum@ == rom.subrange(0x14E, 0x150)
}

/// The bank data of an image: what lies behind the header.
pub open spec fn bank_of(rom: Seq<u8>) -> Seq<u8> {
    if rom.len() <= HEADER_END {
        Seq::empty()
    } else {
        rom.subrange(HEADER_END as int, rom.len() as int)
    }
}

impl RomSize {
    /// No bytes in no banks.
    pub fn default() -> (r: RomSize)
        ensures
            r == (RomSize { size: 0, num_of_banks: 0 }),
    {
        RomSize { size: 0, num_of_banks: 0 }
    }

    /// Decodes the byte at 0x148.
    pub fn from_code(code: u8) -> (r: Option<RomSize>)
        ensures
            match rom_size_of(code) {
                Some((size, banks)) => r is Some && r->Some_0.size == size
                    && r->Some_0.num_of_banks == banks,
                None => r is None,
            },
    {
        if code <= 0x08 {
            let n: u32 = code as u32;
            let size: u32 = 32768u32 << n;
            let banks: u32 = 2u32 << n;
            proof {
                lemma2_to64();
                assert(n <= 8 ==> (32768u32 << n) == 32768 * (1u32 << n) && (2u32 << n) == 2 * (1u32
                    << n) && (1u32 << n) <= 256 && (n == 0 ==> (1u32 << n) == 1) && (n == 1 ==> (
                1u32 << n) == 2) && (n == 2 ==> (1u32 << n) == 4) && (n == 3 ==> (1u32 << n) == 8)
                    && (n == 4 ==> (1u32 << n) == 16) && (n == 5 ==> (1u32 << n) == 32) && (n == 6
                    ==> (1u32 << n) == 64) && (n == 7 ==> (1u32 << n) == 128) && (n == 8 ==> (1u32
                    << n) == 256)) by (bit_vector);
            }
            Some(RomSize { size: size as usize, num_of_banks: banks as usize })
        } else if code == 0x52 {
            Some(RomSize { size: 1153433, num_of_banks: 72 })
        } else if code == 0x53 {
            Some(RomSize { size: 1258291, num_of_banks: 80 })
        } else if code == 0x54 {
            Some(RomSize { size: 1572864, num_of_banks: 96 })
        } else {
            None
        }
    }
}

impl RomHeader {
    /// The header in which every field is zero or false.
    pub fn default() -> (h: RomHeader)
        ensures
            h.entry_point@ == zeros(4),
            h.logo@ == zeros(48),
            h.title@ == zeros(11),
            h.manufacturer_code@ == zeros(4),
            !h.cgb_flag,
            h.new_licensee_code@ == zeros(2),
            !h.sgb_flag,
            h.cartridge_type == 0,
            h.rom_size == (RomSize { size: 0, num_of_banks: 0 }),
            h.ram_size == 0,
            h.destination_code == 0,
            h.old_licensee_code == 0,
            h.mask_rom_version == 0,
            h.header_checksum == 0,
            h.global_checksum@ == zeros(2),
    {
        let h = RomHeader {
            entry_point: [0x00;4],
            logo: [0x00;48],
            title: [0x00;11],
            manufacturer_code: [0x00;4],
            cgb_flag: false,
            new_licensee_code: [0x00;2],
            sgb_flag: false,
            cartridge_type: 0,
            rom_size: RomSize::default(),
            ram_size: 0,
            destination_code: 0,
            old_licensee_code: 0,
            mask_rom_version: 0,
            header_checksum: 0,
            global_checksum: [0x00;2],
        };
        proof {
            assert(h.entry_point@ =~= zeros(4));
            assert(h.logo@ =~= zeros(48));
            assert(h.title@ =~= zeros(11));
            assert(h.manufacturer_code@ =~= zeros(4));
            assert(h.new_licensee_code@ =~= zeros(2));
            assert(h.global_checksum@ =~= zeros(2));
        }
        h
    }

    /// The byte fields that are shown as text, each in lowercase hex.
    pub fn hex_fields(&self) -> (text: HexFields)
        ensures
            text.entry_point@ == hex_text(self.entry_point@),
            text.logo@ == hex_text(self.logo@),
            text.title@ == hex_text(self.title@),
            text.manufacturer_code@ == hex_text(self.manufacturer_code@),
            text.new_licensee_code@ == hex_text(self.new_licensee_code@),
    {
        HexFields {
            entry_point: hex_encode(self.entry_point.as_slice()),
            logo: hex_encode(self.logo.as_slice()),
            title: hex_encode(self.title.as_slice()),
            manufacturer_code: hex_encode(self.manufacturer_code.as_slice()),
            new_licensee_code: hex_encode(self.new_licensee_code.as_slice()),
        }
    }

    /// Decodes the header of a cartridge image.
    pub fn new(rom_file: &[u8]) -> (r: Result<RomHeader, RomError>)
        ensures
            match header_error(rom_file@) {
                Some(e) => r == Err::<RomHeader, RomError>(e),
                None => r is Ok && header_matches(r->Ok_0, rom_file@),
            },
    {
        read_rom_header(rom_file)
    }
}

impl Rom {
    /// Decodes a cartridge image: its header, then its bank data.
    pub fn new(rom_file: &[u8]) -> (r: Result<Rom, RomError>)
        ensures
            match header_error(rom_file@) {
                Some(e) => r is Err && r->Err_0 == e,
                None => r is Ok && header_matches(*r->Ok_0.spec_header(), rom_file@)
                    && r->Ok_0.spec_bank() == bank_of(rom_file@),
            },
    {
        match RomHeader::new(rom_file) {
            Ok(header) => Ok(Rom { header, bank: read_rom_bank(rom_file) }),
            Err(e) => Err(e),
        }
    }

    /// The header of the image.
    pub closed spec fn spec_header(&self) -> &RomHeader {
        &self.header
    }

    /// The bank data of the image.
    pub closed spec fn spec_bank(&self) -> Seq<u8> {
        self.bank@
    }

    #[verifier::when_used_as_spec(spec_header)]
    pub fn get_header(&self) -> (h: &RomHeader)
        ensures
            h == self.spec_header(),
    {
        &self.header
    }

    /// The bank data of the image.
    pub fn get_bank(&self) -> (b: &Vec<u8>)
        ensures
            b@ == self.spec_bank(),
    {
        &self.bank
    }
}

/// Copies the `N` bytes of `rom` that start at `start`.
fn read_array<const N: usize>(rom: &[u8], start: usize) -> (a: [u8; N])
    requires
        start + N <= rom@.len(),
    ensures
        a@ == rom@.subrange(start as int, start + N),
{
    let len: usize = rom.len();
    let mut a: [u8; N] = [0u8;N];
    let mut i: usize = 0;
    while i < N
        invariant
            start + N <= len,
            len == rom@.len(),
            i <= N,
            forall|k: int| 0 <= k < i ==> a@[k] == rom@[start + k],
        decreases N - i,
    {
        a[i] = rom[start + i];
        i += 1;
    }
    assert(a@ =~= rom@.subrange(start as int, start + N));
    a
}

/// Decodes the header of a cartridge image. The image is refused for the
/// first field, in header order, whose byte is not one the format knows, and
/// at last for a wrong checksum.
pub fn read_rom_header(rom: &[u8]) -> (r: Result<RomHeader, RomError>)
    ensures
        match header_error(rom@) {
            Some(e) => r == Err::<RomHeader, RomError>(e),
            None => r is Ok && header_matches(r->Ok_0, rom@),
        },
{
    if rom.len() < HEADER_END {
        return Err(RomError::Truncated);
    }
    let mut rom_header = RomHeader::default();
    rom_header.entry_point = read_array::<4>(rom, 0x100);
    rom_header.logo = read_array::<48>(rom, 0x104);
    rom_header.title = read_array::<11>(rom, 0x134);
    rom_header.manufacturer_code = read_array::<4>(rom, 0x13F);

    rom_header.cgb_flag = rom[0x143] == 0x80 || rom[0x143] == 0xC0;

    rom_header.new_licensee_code = read_array::<2>(rom, 0x144);

    rom_header.sgb_flag = match rom[0x146] {
        0x00 => false,
        0x03 => true,
        _ => { return Err(RomError::UnknownSgbFlag); },
    };

    rom_header.cartridge_type = rom[0x147] as usize;

    rom_header.rom_size = match RomSize::from_code(rom[0x148]) {
        Some(rom_size) => rom_size,
        None => { return Err(RomError::InvalidRomSize); },
    };

    rom_header.ram_size = match rom[0x149] {
        0x00 => 0,
        0x01 => 2 * 1024 * 1024,
        0x02 => 8 * 1024 * 1024,
        0x03 => 32 * 1024 * 1024,
        0x04 => 128 * 1024 * 1024,
        0x05 => 64 * 1024 * 1024,
        _ => { return Err(RomError::InvalidRamSize); },
    };

    rom_header.destination_code = match rom[0x14A] {
        0x00 => 0,
        0x01 => 1,
        _ => { return Err(RomError::InvalidDestinationCode); },
    };

    rom_header.old_licensee_code = rom[0x14B] as usize;
    rom_header.mask_rom_version = rom[0x14C] as usize;
    rom_header.header_checksum = rom[0x14D] as usize;
    rom_header.global_checksum = read_array::<2>(rom, 0x14E);

    if calc_header_checksum(rom) != rom_header.header_checksum {
        return Err(RomError::InvalidHeaderChecksum);
    }
    Ok(rom_header)
}

/// Computes the checksum of the header, over bytes 0x134 to 0x14C.
pub fn calc_header_checksum(rom: &[u8]) -> (x: usize)
    requires
        rom@.len() > 0x14C,
    ensures
        x == header_checksum_of(rom@),
        x < 256,
{
    let mut x: u8 = 0;
    let mut at: usize = 0x134;
    while at <= 0x14C
        invariant
            rom@.len() > 0x14C,
            0x134 <= at <= 0x14D,
            x == checksum_to(rom@, at as int),
        decreases 0x14D - at,
    {
        let byte: u8 = rom[at];
        x = x.wrapping_sub(byte).wrapping_sub(1);
        at += 1;
    }
    x as usize
}

/// Copies the bank data of an image: what lies behind the header.
pub fn read_rom_bank(rom_file: &[u8]) -> (bank: Vec<u8>)
    ensures
        bank@ == bank_of(rom_file@),
{
    let mut bank: Vec<u8> = Vec::new();
    let mut at: usize = HEADER_END;
    while at < rom_file.len()
        invariant
            HEADER_END <= at,
            at <= rom_file@.len() || rom_file@.len() <= HEADER_END,
            rom_file@.len() > HEADER_END ==> bank@ == rom_file@.subrange(
                HEADER_END as int,
                at as int,
            ),
            rom_file@.len() <= HEADER_END ==> bank@ == Seq::<u8>::empty(),
        decreases rom_file@.len() - at,
    {
        bank.push(rom_file[at]);
        proof {
            assert(bank@ =~= rom_file@.subrange(HEADER_END as int, at + 1));
        }
        at += 1;
    }
    bank
}

} // verus!
