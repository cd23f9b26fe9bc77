use rand::rngs::StdRng;
use rand::SeedableRng;
use texsynth::access::{BinaryPixelAccess, GrayPixels};
use texsynth::anneal::{anneal, anneal_step};
use texsynth::canvas::{randomize_bitmap, BitImage};
use texsynth::codec::readblock;
use texsynth::energy::evaluate_bitmap;
use texsynth::histogram::{readhash, readhash_to, TextureHash};

/// An 8x8 canvas whose pixel at (x, y) is on exactly when x + y is even.
fn checkerboard_8x8() -> BitImage {
    let mut img = BitImage::new(8, 8);
    for y in 0..8u32 {
        for x in 0..8u32 {
            if (x + y) % 2 == 0 {
                img.set_pixel(x, y, 255);
            }
        }
    }
    img
}

#[test]
fn histogram_total_counts_all_blocks() {
    let img = BitImage::new(8, 8);
    let hash = readhash(&img);
    assert_eq!(hash.total(), 25);
    assert_eq!(hash.count(0), 25);
}

#[test]
fn histogram_total_4x4() {
    let img = BitImage::new(4, 4);
    let hash = readhash(&img);
    assert_eq!(hash.total(), 1);
    assert_eq!(hash.count(0), 1);
}

#[test]
fn histogram_small_image_is_empty() {
    let img = BitImage::new(3, 5);
    let hash = readhash(&img);
    assert_eq!(hash.total(), 0);
    for code in 0..65536u32 {
        assert_eq!(hash.count(code), 0);
    }
}

#[test]
fn histogram_accumulates() {
    let img = BitImage::new(8, 8);
    let mut hash = TextureHash::new();
    readhash_to(&img, &mut hash);
    readhash_to(&img, &mut hash);
    assert_eq!(hash.total(), 50);
    assert_eq!(hash.count(0), 50);
}

#[test]
fn block_code_is_column_major_from_bit_zero() {
    let mut img = BitImage::new(4, 4);
    img.set_pixel(0, 0, 255);
    assert_eq!(readblock(&img, 0, 0), 1);

    let mut img = BitImage::new(4, 4);
    img.set_pixel(0, 1, 255);
    assert_eq!(readblock(&img, 0, 0), 2);

    let mut img = BitImage::new(4, 4);
    img.set_pixel(1, 0, 255);
    assert_eq!(readblock(&img, 0, 0), 16);

    let mut img = BitImage::new(4, 4);
    img.set_pixel(3, 3, 255);
    assert_eq!(readblock(&img, 0, 0), 32768);
}

#[test]
fn block_code_round_trips_through_the_cells() {
    // Write the 16 bits of a code into the cells, then read the block back.
    for &code in &[0u32, 1, 2, 0x8000, 0xFFFF, 0xA5C3, 0x1234] {
        let mut img = BitImage::new(4, 4);
        for i in 0..16u32 {
            if (code >> i) & 1 == 1 {
                img.set_pixel(i / 4, i % 4, 255);
            }
        }
        assert_eq!(readblock(&img, 0, 0), code);
    }
}

#[test]
fn block_code_all_on() {
    let mut img = BitImage::new(4, 4);
    for y in 0..4u32 {
        for x in 0..4u32 {
            img.set_pixel(x, y, 255);
        }
    }
    assert_eq!(readblock(&img, 0, 0), 65535);
}

#[test]
fn energy_of_identical_distributions_is_zero() {
    let img = BitImage::new(8, 8);
    let hash = readhash(&img);
    let e = evaluate_bitmap(&img, &hash);
    assert_eq!(e.num, 0);
    assert_eq!(e.den, 25 * 25);
}

#[test]
fn energy_is_symmetric() {
    let a = BitImage::new(8, 8);
    let b = checkerboard_8x8();
    let hash_a = readhash(&a);
    let hash_b = readhash(&b);
    let ab = evaluate_bitmap(&b, &hash_a);
    let ba = evaluate_bitmap(&a, &hash_b);
    assert_eq!(ab.num, ba.num);
    assert_eq!(ab.den, ba.den);
}

#[test]
fn energy_between_disjoint_distributions_is_two() {
    let hash = readhash(&checkerboard_8x8());
    let canvas = BitImage::new(8, 8);
    let e = evaluate_bitmap(&canvas, &hash);
    assert_eq!(e.num, 2 * e.den);
}

#[test]
fn noise_probability_zero_changes_nothing() {
    let mut img = checkerboard_8x8();
    let mut rng = StdRng::seed_from_u64(7);
    randomize_bitmap(&mut img, &mut rng, 0, 1);
    for y in 0..8u32 {
        for x in 0..8u32 {
            let expect = if (x + y) % 2 == 0 { 255 } else { 0 };
            assert_eq!(img.get_pixel(x, y), expect);
        }
    }
}

#[test]
fn noise_probability_one_flips_every_pixel() {
    let mut img = checkerboard_8x8();
    let mut rng = StdRng::seed_from_u64(7);
    randomize_bitmap(&mut img, &mut rng, 1, 1);
    for y in 0..8u32 {
        for x in 0..8u32 {
            let expect = if (x + y) % 2 == 0 { 0 } else { 255 };
            assert_eq!(img.get_pixel(x, y), expect);
        }
    }
}

#[test]
fn anneal_steps_never_raise_the_energy() {
    let hash = readhash(&checkerboard_8x8());
    let mut canvas = BitImage::new(8, 8);
    let mut energy = evaluate_bitmap(&canvas, &hash);
    let mut rng = StdRng::seed_from_u64(42);
    for _ in 0..30 {
        let next = anneal_step(&hash, &mut canvas, &mut rng, energy, 1, 4);
        assert!(next.num <= energy.num);
        assert_eq!(next.den, energy.den);
        energy = next;
    }
}

#[test]
fn anneal_at_zero_energy_leaves_the_canvas_alone() {
    let reference = BitImage::new(8, 8);
    let hash = readhash(&reference);
    let mut canvas = BitImage::new(8, 8);
    let e = evaluate_bitmap(&canvas, &hash);
    assert_eq!(e.num, 0);
    let mut rng = StdRng::seed_from_u64(9);
    anneal(&hash, &mut canvas, &mut rng, 1, 2, 50);
    for y in 0..8u32 {
        for x in 0..8u32 {
            assert_eq!(canvas.get_pixel(x, y), 0);
        }
    }
}

#[test]
fn gray_pixels_threshold_at_128() {
    // 4x4 luminance plane: only values strictly above 128 count as on.
    let mut luma = vec![0u8; 16];
    luma[0] = 200;  // (0, 0): on -> bit 0
    luma[4] = 129;  // (0, 1): on -> bit 1
    luma[8] = 128;  // (0, 2): off, exactly at the threshold
    luma[12] = 127; // (0, 3): off
    let gray = GrayPixels::new(4, 4, luma).unwrap();
    assert_eq!(readblock(&gray, 0, 0), 3);
    let hash = readhash(&gray);
    assert_eq!(hash.total(), 1);
    assert_eq!(hash.count(3), 1);
}

#[test]
fn gray_pixels_rejects_wrong_buffer_length() {
    assert!(GrayPixels::new(4, 4, vec![0u8; 15]).is_none());
    assert!(GrayPixels::new(4, 4, vec![0u8; 16]).is_some());
}

#[test]
fn canvas_reports_its_dimensions() {
    let img = BitImage::new(5, 7);
    assert_eq!(img.get_dimensions(), (5, 7));
    let gray = GrayPixels::new(2, 3, vec![0u8; 6]).unwrap();
    assert_eq!(gray.get_dimensions(), (2, 3));
}

#[test]
fn canvas_pixels_read_back() {
    let mut img = BitImage::new(4, 4);
    img.set_pixel(2, 1, 255);
    assert_eq!(img.get_pixel(2, 1), 255);
    assert_eq!(img.get_pixel(1, 2), 0);
    assert!(BinaryPixelAccess::get_pixel(&img, 2, 1));
    assert!(!BinaryPixelAccess::get_pixel(&img, 1, 2));
}
