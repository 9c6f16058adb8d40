use mobile_worship::edid::{decode_manufacturer_id, get_display_fingerprints, hex_to_bytes,
    parse_edid, DisplayFingerprint};

fn sample_edid() -> Vec<u8> {
    let mut edid = vec![0u8; 128];
    // Fixed header.
    let header = [0x00, 0xFF, 0xFF, 0xFF, 0xFF, 0xFF, 0xFF, 0x00];
    edid[..8].copy_from_slice(&header);
    // Manufacturer "DEL".
    edid[8] = 0x10;
    edid[9] = 0xAC;
    // Product code 0xABCD, little endian.
    edid[10] = 0xCD;
    edid[11] = 0xAB;
    // Serial number 0x12345678, little endian.
    edid[12] = 0x78;
    edid[13] = 0x56;
    edid[14] = 0x34;
    edid[15] = 0x12;
    // Week 42 of 2023.
    edid[16] = 42;
    edid[17] = 33;
    // 60 x 34 cm.
    edid[21] = 60;
    edid[22] = 34;
    // Monitor name descriptor in the first slot.
    edid[54] = 0x00;
    edid[55] = 0x00;
    edid[56] = 0x00;
    edid[57] = 0xFC;
    edid[58] = 0x00;
    let name = b"DELL U2723QE\n";
    edid[59..59 + name.len()].copy_from_slice(name);
    edid
}

#[test]
fn test_hex_to_bytes() {
    assert_eq!(hex_to_bytes("00FF").unwrap(), vec![0x00, 0xFF]);
    assert_eq!(hex_to_bytes("DEADBEEF").unwrap(), vec![0xDE, 0xAD, 0xBE, 0xEF]);
    assert!(hex_to_bytes("0").is_err()); // Odd length
    assert!(hex_to_bytes("GG").is_err()); // Invalid hex
}

#[test]
fn test_decode_manufacturer_id() {
    // Dell = "DEL" = 0x10 0x05 0x0C = 0b00100 00101 01100 = 0x10AC
    assert_eq!(decode_manufacturer_id(0x10AC), "DEL");

    // Samsung = "SAM" = 0x13 0x01 0x0D = 0b10011 00001 01101 = 0x4C2D
    assert_eq!(decode_manufacturer_id(0x4C2D), "SAM");
}

#[test]
fn test_fingerprint_to_uuid() {
    let fp = DisplayFingerprint {
        manufacturer_id: "DEL".to_string(),
        product_code: 12345,
        serial_number: 67890,
        model_name: "DELL U2723QE".to_string(),
        width_cm: 60,
        height_cm: 34,
        manufacture_week: 42,
        manufacture_year: 2023,
    };

    let uuid = fp.to_uuid();
    // Same fingerprint should always produce same UUID
    assert_eq!(uuid, fp.to_uuid());

    // Different fingerprint should produce different UUID
    let fp2 = DisplayFingerprint {
        serial_number: 11111,
        ..fp.clone()
    };
    assert_ne!(uuid, fp2.to_uuid());
}

#[test]
fn parse_edid_reads_every_field() {
    let edid = sample_edid();
    let fp = parse_edid(&edid).expect("valid EDID must parse");
    assert_eq!(fp.manufacturer_id, "DEL");
    assert_eq!(fp.product_code, 0xABCD);
    assert_eq!(fp.serial_number, 0x12345678);
    assert_eq!(fp.model_name, "DELL U2723QE");
    assert_eq!(fp.width_cm, 60);
    assert_eq!(fp.height_cm, 34);
    assert_eq!(fp.manufacture_week, 42);
    assert_eq!(fp.manufacture_year, 2023);
    assert_eq!(fp.display_name(), "DELL U2723QE");
}

#[test]
fn parse_edid_rejects_short_and_corrupt_blocks() {
    assert!(parse_edid(&[0u8; 64]).is_none());
    let mut bad = sample_edid();
    bad[1] = 0x00; // break the header
    assert!(parse_edid(&bad).is_none());
}

#[test]
fn display_name_falls_back_to_manufacturer() {
    let fp = DisplayFingerprint {
        manufacturer_id: "SAM".to_string(),
        product_code: 1,
        serial_number: 2,
        model_name: String::new(),
        width_cm: 0,
        height_cm: 0,
        manufacture_week: 1,
        manufacture_year: 1990,
    };
    assert_eq!(fp.display_name(), "SAM Display");
}

#[test]
fn fingerprints_keep_blob_positions_and_skip_failures() {
    let blobs = vec![vec![0u8; 10], sample_edid(), vec![], sample_edid()];
    let found = get_display_fingerprints(blobs);
    assert_eq!(found.len(), 2);
    assert_eq!(found[0].0, 1);
    assert_eq!(found[1].0, 3);
    assert_eq!(found[0].1.manufacturer_id, "DEL");
}

#[test]
fn hex_to_bytes_ignores_spaces_and_accepts_lowercase() {
    assert_eq!(hex_to_bytes("00 ff AB cd").unwrap(), vec![0x00, 0xFF, 0xAB, 0xCD]);
    assert_eq!(hex_to_bytes("").unwrap(), Vec::<u8>::new());
    assert!(hex_to_bytes("0 1 2").is_err());
}
