use pagestore::rom::{
    calc_header_checksum, read_rom_bank, read_rom_header, Rom, RomError, RomHeader, RomSize,
};

fn image() -> Vec<u8> {
    let mut img = vec![0u8; 0x150];
    img[0x100..0x104].copy_from_slice(&[0x00, 0xC3, 0x50, 0x01]);
    for i in 0..48 {
        img[0x104 + i] = i as u8;
    }
    img[0x134..0x13F].copy_from_slice(b"POKEMON RED");
    img[0x13F..0x143].copy_from_slice(b"APSE");
    img[0x143] = 0x80;
    img[0x144..0x146].copy_from_slice(b"01");
    img[0x146] = 0x03;
    img[0x147] = 0x13;
    img[0x148] = 0x05;
    img[0x149] = 0x03;
    img[0x14A] = 0x01;
    img[0x14B] = 0x33;
    img[0x14C] = 0x00;
    img[0x14D] = 0x77;
    img[0x14E] = 0x91;
    img[0x14F] = 0xE6;
    img.extend_from_slice(&[1, 2, 3, 4]);
    img
}

fn seal(img: &mut Vec<u8>) {
    img[0x14D] = calc_header_checksum(img) as u8;
}

#[test]
fn header_fields_are_decoded() {
    let h = read_rom_header(&image()).unwrap();
    assert_eq!(h.entry_point, [0x00, 0xC3, 0x50, 0x01]);
    assert_eq!(h.logo[0], 0);
    assert_eq!(h.logo[47], 47);
    assert_eq!(&h.title, b"POKEMON RED");
    assert_eq!(&h.manufacturer_code, b"APSE");
    assert!(h.cgb_flag);
    assert_eq!(&h.new_licensee_code, b"01");
    assert!(h.sgb_flag);
    assert_eq!(h.cartridge_type, 0x13);
    assert_eq!(h.rom_size, RomSize { size: 1024 * 1024, num_of_banks: 64 });
    assert_eq!(h.ram_size, 32 * 1024 * 1024);
    assert_eq!(h.destination_code, 1);
    assert_eq!(h.old_licensee_code, 0x33);
    assert_eq!(h.mask_rom_version, 0);
    assert_eq!(h.header_checksum, 0x77);
    assert_eq!(h.global_checksum, [0x91, 0xE6]);
}

#[test]
fn header_new_is_the_decoder() {
    let h = RomHeader::new(&image()).unwrap();
    assert_eq!(&h.title, b"POKEMON RED");
    assert!(matches!(RomHeader::new(&[0u8; 10]), Err(RomError::Truncated)));
}

#[test]
fn checksum_of_the_sample_header() {
    assert_eq!(calc_header_checksum(&image()), 0x77);
}

#[test]
fn checksum_of_zero_bytes() {
    assert_eq!(calc_header_checksum(&[0u8; 0x150]), 0xE7);
}

#[test]
fn checksum_wraps_on_high_bytes() {
    let mut img = vec![0u8; 0x150];
    for b in img[0x134..0x14D].iter_mut() {
        *b = 0xFF;
    }
    assert_eq!(calc_header_checksum(&img), 0);
}

#[test]
fn hex_fields_of_the_sample_header() {
    let text = read_rom_header(&image()).unwrap().hex_fields();
    assert_eq!(text.entry_point, "00c35001");
    assert_eq!(
        text.logo,
        "000102030405060708090a0b0c0d0e0f101112131415161718191a1b1c1d1e1f202122232425262728292a2b2c2d2e2f"
    );
    assert_eq!(text.title, "504f4b454d4f4e20524544");
    assert_eq!(text.manufacturer_code, "41505345");
    assert_eq!(text.new_licensee_code, "3031");
}

#[test]
fn default_header_is_all_zero() {
    let h = RomHeader::default();
    assert_eq!(h.entry_point, [0; 4]);
    assert_eq!(h.logo, [0; 48]);
    assert_eq!(h.title, [0; 11]);
    assert_eq!(h.manufacturer_code, [0; 4]);
    assert!(!h.cgb_flag);
    assert_eq!(h.new_licensee_code, [0; 2]);
    assert!(!h.sgb_flag);
    assert_eq!(h.cartridge_type, 0);
    assert_eq!(h.rom_size, RomSize::default());
    assert_eq!(h.ram_size, 0);
    assert_eq!(h.destination_code, 0);
    assert_eq!(h.old_licensee_code, 0);
    assert_eq!(h.mask_rom_version, 0);
    assert_eq!(h.header_checksum, 0);
    assert_eq!(h.global_checksum, [0; 2]);
    assert_eq!(h.hex_fields().title, "0000000000000000000000");
}

#[test]
fn default_rom_size_is_zero() {
    assert_eq!(RomSize::default(), RomSize { size: 0, num_of_banks: 0 });
}

#[test]
fn rom_size_codes() {
    assert_eq!(RomSize::from_code(0x00), Some(RomSize { size: 32 * 1024, num_of_banks: 2 }));
    assert_eq!(RomSize::from_code(0x01), Some(RomSize { size: 64 * 1024, num_of_banks: 4 }));
    assert_eq!(RomSize::from_code(0x08), Some(RomSize { size: 8 * 1024 * 1024, num_of_banks: 512 }));
    assert_eq!(RomSize::from_code(0x52), Some(RomSize { size: 1153433, num_of_banks: 72 }));
    assert_eq!(RomSize::from_code(0x53), Some(RomSize { size: 1258291, num_of_banks: 80 }));
    assert_eq!(RomSize::from_code(0x54), Some(RomSize { size: 1572864, num_of_banks: 96 }));
    assert_eq!(RomSize::from_code(0x09), None);
    assert_eq!(RomSize::from_code(0x55), None);
    assert_eq!(RomSize::from_code(0xFF), None);
}

#[test]
fn ram_size_codes() {
    let sizes = [0usize, 2, 8, 32, 128, 64];
    for (code, mib) in sizes.iter().enumerate() {
        let mut img = image();
        img[0x149] = code as u8;
        seal(&mut img);
        assert_eq!(read_rom_header(&img).unwrap().ram_size, mib * 1024 * 1024);
    }
}

#[test]
fn cgb_flag_values() {
    for (byte, flag) in [(0x80u8, true), (0xC0, true), (0x00, false), (0x81, false)] {
        let mut img = image();
        img[0x143] = byte;
        seal(&mut img);
        assert_eq!(read_rom_header(&img).unwrap().cgb_flag, flag);
    }
}

#[test]
fn sgb_flag_off() {
    let mut img = image();
    img[0x146] = 0x00;
    seal(&mut img);
    assert!(!read_rom_header(&img).unwrap().sgb_flag);
}

#[test]
fn truncated_image_is_refused() {
    let img = image();
    assert!(matches!(read_rom_header(&img[..0x14F]), Err(RomError::Truncated)));
    assert!(matches!(read_rom_header(&[]), Err(RomError::Truncated)));
    assert!(read_rom_header(&img[..0x150]).is_ok());
}

#[test]
fn unknown_sgb_flag_is_refused() {
    let mut img = image();
    img[0x146] = 0x01;
    assert!(matches!(read_rom_header(&img), Err(RomError::UnknownSgbFlag)));
}

#[test]
fn invalid_rom_size_is_refused() {
    let mut img = image();
    img[0x148] = 0x09;
    assert!(matches!(read_rom_header(&img), Err(RomError::InvalidRomSize)));
}

#[test]
fn invalid_ram_size_is_refused() {
    let mut img = image();
    img[0x149] = 0x06;
    assert!(matches!(read_rom_header(&img), Err(RomError::InvalidRamSize)));
}

#[test]
fn invalid_destination_code_is_refused() {
    let mut img = image();
    img[0x14A] = 0x02;
    assert!(matches!(read_rom_header(&img), Err(RomError::InvalidDestinationCode)));
}

#[test]
fn wrong_checksum_is_refused() {
    let mut img = image();
    img[0x14D] = 0x78;
    assert!(matches!(read_rom_header(&img), Err(RomError::InvalidHeaderChecksum)));
}

#[test]
fn first_bad_field_decides_the_error() {
    let mut img = image();
    img[0x146] = 0x01;
    img[0x148] = 0x09;
    img[0x14D] = 0x00;
    assert!(matches!(read_rom_header(&img), Err(RomError::UnknownSgbFlag)));
    img[0x146] = 0x03;
    assert!(matches!(read_rom_header(&img), Err(RomError::InvalidRomSize)));
}

#[test]
fn bank_is_what_follows_the_header() {
    assert_eq!(read_rom_bank(&image()), vec![1, 2, 3, 4]);
    assert_eq!(read_rom_bank(&image()[..0x150]), Vec::<u8>::new());
    assert_eq!(read_rom_bank(&[9u8; 12]), Vec::<u8>::new());
}

#[test]
fn rom_holds_header_and_bank() {
    let rom = Rom::new(&image()).unwrap();
    assert_eq!(&rom.get_header().title, b"POKEMON RED");
    assert_eq!(rom.get_bank(), &vec![1, 2, 3, 4]);
}

#[test]
fn rom_of_a_bad_image_is_refused() {
    let mut img = image();
    img[0x14A] = 0x7F;
    assert!(matches!(Rom::new(&img), Err(RomError::InvalidDestinationCode)));
}
