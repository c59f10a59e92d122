use phash::{distance, generate, Config, PixelGrid, Rgb};

fn solid_grid(width: usize, height: usize, color: [u8; 3]) -> PixelGrid {
    let mut pixels: Vec<Rgb> = Vec::new();
    let mut i: usize = 0;
    while i < width * height {
        pixels.push(Rgb { r: color[0], g: color[1], b: color[2] });
        i += 1;
    }
    PixelGrid::new(width, height, pixels).unwrap()
}

fn default_config() -> Config {
    Config::new(8, 8).unwrap()
}

#[test]
fn test_create_hasher() {
    let config = Config::new(8, 8);
    // Just verify it creates successfully
    assert!(config.is_ok());
}

#[test]
fn test_hash_to_hex() {
    let config = default_config();
    let img = solid_grid(100, 100, [255, 0, 0]);
    let hash = generate(&img, &config).unwrap();
    let hex = hash.to_hex();

    // Should be 16 hex characters (8 bytes * 2 chars per byte)
    assert_eq!(hex.len(), 16);

    // Should only contain hex characters
    assert!(hex.chars().all(|c| c.is_ascii_hexdigit()));
}

#[test]
fn test_identical_images_have_zero_distance() {
    let config = default_config();
    let img1 = solid_grid(100, 100, [255, 0, 0]);
    let img2 = solid_grid(100, 100, [255, 0, 0]);

    let hash1 = generate(&img1, &config).unwrap();
    let hash2 = generate(&img2, &config).unwrap();

    assert_eq!(distance(&hash1, &hash2).unwrap(), 0);
}

#[test]
fn test_different_images_have_nonzero_distance() {
    let config = default_config();
    // Create images with significantly different patterns
    let mut pixels1: Vec<Rgb> = Vec::new();
    let mut pixels2: Vec<Rgb> = Vec::new();
    for y in 0..100 {
        for x in 0..100 {
            pixels1.push(if x < 50 {
                Rgb { r: 255, g: 255, b: 255 }
            } else {
                Rgb { r: 0, g: 0, b: 0 }
            });
            pixels2.push(if y < 50 {
                Rgb { r: 255, g: 255, b: 255 }
            } else {
                Rgb { r: 0, g: 0, b: 0 }
            });
        }
    }
    let img1 = PixelGrid::new(100, 100, pixels1).unwrap();
    let img2 = PixelGrid::new(100, 100, pixels2).unwrap();

    let hash1 = generate(&img1, &config).unwrap();
    let hash2 = generate(&img2, &config).unwrap();

    assert!(distance(&hash1, &hash2).unwrap() > 0);
}

#[test]
fn test_same_image_produces_same_hash() {
    let config = default_config();
    let img = solid_grid(100, 100, [128, 128, 128]);

    let hash1 = generate(&img, &config).unwrap();
    let hash2 = generate(&img, &config).unwrap();

    assert_eq!(hash1.to_hex(), hash2.to_hex());
}

#[test]
fn test_hash_hex_format() {
    let config = default_config();
    let img = solid_grid(100, 100, [0, 0, 0]);
    let hash = generate(&img, &config).unwrap();
    let hex = hash.to_hex();

    // Verify format: should be lowercase hex
    assert!(hex.chars().all(|c| c.is_ascii_lowercase() || c.is_ascii_digit()));
}
