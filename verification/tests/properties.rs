use phash::{distance, generate, Config, Fingerprint, HashError, PixelGrid, Rgb};

fn solid(width: usize, height: usize, color: [u8; 3]) -> PixelGrid {
    let mut pixels: Vec<Rgb> = Vec::new();
    let mut i: usize = 0;
    while i < width * height {
        pixels.push(Rgb { r: color[0], g: color[1], b: color[2] });
        i += 1;
    }
    PixelGrid::new(width, height, pixels).unwrap()
}

#[test]
fn test_uniform_image_yields_all_zero_fingerprint() {
    // Every cell of a solid image equals the mean; the strict threshold
    // resolves the tie to zero bits.
    let config = Config::new(8, 8).unwrap();
    let img = solid(100, 100, [255, 0, 0]);
    let hash = generate(&img, &config).unwrap();
    assert_eq!(hash.to_hex(), "0000000000000000");
}

#[test]
fn test_distance_identity_concrete() {
    let bits = vec![true, false, true, true, false, false, true, false];
    let f = Fingerprint::from_bits(bits);
    assert_eq!(distance(&f, &f).unwrap(), 0);
}

#[test]
fn test_distance_symmetry_concrete() {
    let a = Fingerprint::from_bits(vec![true, false, true, false]);
    let b = Fingerprint::from_bits(vec![false, false, true, true]);
    assert_eq!(distance(&a, &b).unwrap(), distance(&b, &a).unwrap());
}

#[test]
fn test_distance_exact_value_and_range() {
    let a = Fingerprint::from_bits(vec![true, true, false, false, true]);
    let b = Fingerprint::from_bits(vec![false, true, true, false, true]);
    let d = distance(&a, &b).unwrap();
    assert_eq!(d, 2);
    assert!(d <= a.bit_count());
}

#[test]
fn test_distance_triangle_inequality_concrete() {
    let a = Fingerprint::from_bits(vec![true, true, false, false]);
    let b = Fingerprint::from_bits(vec![true, false, false, true]);
    let c = Fingerprint::from_bits(vec![false, false, true, true]);
    let ab = distance(&a, &b).unwrap();
    let bc = distance(&b, &c).unwrap();
    let ac = distance(&a, &c).unwrap();
    assert!(ac <= ab + bc);
}

#[test]
fn test_distance_length_mismatch() {
    let a = Fingerprint::from_bits(vec![true; 8]);
    let b = Fingerprint::from_bits(vec![true; 16]);
    assert_eq!(distance(&a, &b), Err(HashError::LengthMismatch));
}

#[test]
fn test_hex_round_trip_of_generated_fingerprint() {
    let config = Config::new(8, 8).unwrap();
    let mut pixels: Vec<Rgb> = Vec::new();
    for y in 0..100 {
        for x in 0..100 {
            let v: u8 = if (x / 10 + y / 10) % 2 == 0 { 255 } else { 0 };
            pixels.push(Rgb { r: v, g: v, b: v });
        }
    }
    let img = PixelGrid::new(100, 100, pixels).unwrap();
    let hash = generate(&img, &config).unwrap();
    let hex = hash.to_hex();
    let decoded = Fingerprint::from_hex(&hex).unwrap();
    assert_eq!(decoded.to_hex(), hex);
}

#[test]
fn test_hex_round_trip_with_padded_bits() {
    // Three bits pack into one byte with five zero padding bits.
    let f = Fingerprint::from_bits(vec![true, false, true]);
    let hex = f.to_hex();
    assert_eq!(hex, "a0");
    let decoded = Fingerprint::from_hex(&hex).unwrap();
    assert_eq!(decoded.bit_count(), 8);
    assert_eq!(decoded.to_hex(), hex);
}

#[test]
fn test_from_hex_known_value() {
    let f = Fingerprint::from_hex("a5").unwrap();
    let expected = [true, false, true, false, false, true, false, true];
    assert_eq!(f.bit_count(), 8);
    for (i, &b) in expected.iter().enumerate() {
        assert_eq!(f.bit(i), b);
    }
    assert_eq!(f.to_bytes(), vec![0xa5]);
}

#[test]
fn test_from_hex_rejects_non_hex_character() {
    assert!(matches!(Fingerprint::from_hex("0g"), Err(HashError::InvalidInput)));
}

#[test]
fn test_from_hex_rejects_uppercase() {
    // Only the canonical lowercase form decodes.
    assert!(matches!(Fingerprint::from_hex("A5"), Err(HashError::InvalidInput)));
}

#[test]
fn test_from_hex_rejects_odd_length() {
    assert!(matches!(Fingerprint::from_hex("abc"), Err(HashError::InvalidInput)));
}

#[test]
fn test_pixel_grid_rejects_mismatched_buffer() {
    let pixels = vec![Rgb { r: 0, g: 0, b: 0 }; 3];
    assert!(matches!(PixelGrid::new(2, 2, pixels), Err(HashError::InvalidInput)));
}

#[test]
fn test_generate_rejects_empty_grid() {
    let config = Config::new(8, 8).unwrap();
    let grid = PixelGrid::new(0, 100, Vec::new()).unwrap();
    assert!(matches!(generate(&grid, &config), Err(HashError::InvalidInput)));
}

#[test]
fn test_config_rejects_zero_dimension() {
    assert!(matches!(Config::new(0, 8), Err(HashError::InvalidInput)));
    assert!(matches!(Config::new(8, 0), Err(HashError::InvalidInput)));
}

#[test]
fn test_config_changes_bit_count_and_hex_length() {
    // A 4x4 grid gives 16 bits and 4 hex characters; fingerprints of
    // differing configurations are never silently compared.
    let small = Config::new(4, 4).unwrap();
    let large = Config::new(8, 8).unwrap();
    assert_eq!(small.bit_count(), 16);
    assert_eq!(large.bit_count(), 64);
    let img = solid(100, 100, [7, 99, 200]);
    let fs = generate(&img, &small).unwrap();
    let fl = generate(&img, &large).unwrap();
    assert_eq!(fs.to_hex().len(), 4);
    assert_eq!(fl.to_hex().len(), 16);
    assert_eq!(distance(&fs, &fl), Err(HashError::LengthMismatch));
}

#[test]
fn test_two_cell_fingerprint_exact() {
    // One black and one white pixel under a 2x1 grid: cell luminances 0 and
    // 255000, mean 127500, so the bits are [0, 1] and the packed byte 0x40.
    let pixels = vec![Rgb { r: 0, g: 0, b: 0 }, Rgb { r: 255, g: 255, b: 255 }];
    let grid = PixelGrid::new(2, 1, pixels).unwrap();
    let config = Config::new(2, 1).unwrap();
    let f = generate(&grid, &config).unwrap();
    assert_eq!(f.bit_count(), 2);
    assert!(!f.bit(0));
    assert!(f.bit(1));
    assert_eq!(f.to_hex(), "40");
}

#[test]
fn test_to_bytes_packs_msb_first() {
    let f = Fingerprint::from_bits(vec![true; 8]);
    assert_eq!(f.to_bytes(), vec![0xff]);
    let g = Fingerprint::from_bits(vec![
        false, true, false, false, false, false, false, true,
    ]);
    assert_eq!(g.to_bytes(), vec![0x41]);
}

#[test]
fn test_upsampling_small_source() {
    // A 2x2 source under an 8x8 grid: every cell still averages at least
    // one source pixel, and the fingerprint stays deterministic.
    let pixels = vec![
        Rgb { r: 255, g: 255, b: 255 },
        Rgb { r: 0, g: 0, b: 0 },
        Rgb { r: 0, g: 0, b: 0 },
        Rgb { r: 255, g: 255, b: 255 },
    ];
    let grid = PixelGrid::new(2, 2, pixels).unwrap();
    let config = Config::new(8, 8).unwrap();
    let f1 = generate(&grid, &config).unwrap();
    let f2 = generate(&grid, &config).unwrap();
    assert_eq!(f1.to_hex(), f2.to_hex());
    assert_eq!(f1.bit_count(), 64);
}
