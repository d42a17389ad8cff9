use skaner_dokumentow::bilevel::{binarize, decode_g4, encode_g4};
use skaner_dokumentow::raster::GrayRaster;

fn filled(width: u32, height: u32, level: u8) -> GrayRaster {
    GrayRaster { width, height, pixels: vec![level; width as usize * height as usize] }
}

fn put(image: &mut GrayRaster, x: u32, y: u32, level: u8) {
    let place = y as usize * image.width as usize + x as usize;
    image.pixels[place] = level;
}

fn get(image: &GrayRaster, x: u32, y: u32) -> u8 {
    image.pixels[y as usize * image.width as usize + x as usize]
}

fn checker(width: u32, height: u32) -> GrayRaster {
    let mut image = filled(width, height, 255);
    for y in 0..height {
        for x in 0..width {
            if (x / 3 + y / 5) % 2 == 0 {
                put(&mut image, x, y, 0);
            }
        }
    }
    image
}

#[test]
fn g4_round_trip_is_pixel_identical() {
    let mut image = checker(37, 11); // odd width, mixed rows
    for x in 0..37 {
        put(&mut image, x, 0, 255); // all-white row
    }
    for x in 0..37 {
        put(&mut image, x, 1, 0); // all-black row
    }
    let bytes = encode_g4(&image);
    assert!(!bytes.is_empty());
    let decoded = decode_g4(&bytes, 37, 11).expect("decode");
    assert_eq!((decoded.width, decoded.height), (37, 11));
    assert_eq!(decoded.pixels, image.pixels);
}

#[test]
fn g4_treats_any_dark_value_as_black() {
    let mut image = filled(8, 1, 200);
    put(&mut image, 3, 0, 127);
    let decoded = decode_g4(&encode_g4(&image), 8, 1).expect("decode");
    assert_eq!(get(&decoded, 3, 0), 0);
    assert_eq!(get(&decoded, 2, 0), 255);
}

#[test]
fn g4_white_page_compresses_to_a_few_bytes() {
    let image = filled(2480, 3508, 255);
    let bytes = encode_g4(&image);
    assert!(bytes.len() < 2048, "white A4 page took {} bytes", bytes.len());
    assert_eq!(decode_g4(&bytes, 2480, 3508).expect("decode").pixels, image.pixels);
}

#[test]
fn truncated_g4_is_an_error_not_a_half_page() {
    let bytes = encode_g4(&checker(64, 64));
    let cut = &bytes[..bytes.len() / 3];
    assert!(decode_g4(cut, 64, 64).is_err());
}

#[test]
fn lines_are_never_made_up() {
    let bytes = encode_g4(&checker(64, 3));
    assert_eq!(
        decode_g4(&bytes, 64, 5).unwrap_err(),
        "Nie można odczytać strony (G4: 3 z 5 wierszy)."
    );
    assert_eq!(
        decode_g4(&[0xff], 64, 9).unwrap_err(),
        "Nie można odczytać strony (uszkodzone dane G4)."
    );
    // A stream may hold more lines than are wanted.
    assert_eq!(decode_g4(&bytes, 64, 2).expect("decode").pixels, checker(64, 2).pixels);
}

#[test]
fn a_page_without_size_is_refused() {
    assert_eq!(decode_g4(&[0], 0, 5).unwrap_err(), "Strona ma zerowy rozmiar.");
    assert_eq!(decode_g4(&[0], 5, 0).unwrap_err(), "Strona ma zerowy rozmiar.");
}

#[test]
fn random_rows_of_every_small_width_come_back() {
    let mut seed: u32 = 7;
    for width in 1..40u32 {
        let mut image = filled(width, 9, 255);
        for y in 0..9 {
            for x in 0..width {
                seed = seed.wrapping_mul(1_664_525).wrapping_add(1_013_904_223);
                if seed >> 30 == 0 {
                    put(&mut image, x, y, 0);
                }
            }
        }
        let decoded = decode_g4(&encode_g4(&image), width, 9).expect("decode");
        assert_eq!(decoded.pixels, image.pixels, "width {width}");
    }
}

#[test]
fn long_runs_come_back() {
    // Runs beyond 2560 pixels need more than one make-up code.
    let mut image = filled(9_000, 4, 255);
    for x in 100..8_900 {
        put(&mut image, x, 1, 0);
    }
    for x in 0..9_000 {
        put(&mut image, x, 2, 0);
    }
    for x in (0..9_000).step_by(2) {
        put(&mut image, x, 3, 0);
    }
    let decoded = decode_g4(&encode_g4(&image), 9_000, 4).expect("decode");
    assert_eq!(decoded.pixels, image.pixels);
}

#[test]
fn binarizing_cuts_at_the_middle() {
    let image = GrayRaster { width: 4, height: 1, pixels: vec![0, 127, 128, 255] };
    assert_eq!(binarize(&image).pixels, vec![0, 0, 255, 255]);
}
