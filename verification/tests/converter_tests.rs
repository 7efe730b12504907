use colourful_words::converter::cell_string;
use colourful_words::converter::convert_image;
use colourful_words::converter::palette_glyph;
use colourful_words::converter::target_height;
use colourful_words::converter::Converter;
use colourful_words::converter::ConverterError;
use colourful_words::converter::ImageByteSource;
use colourful_words::image_storage::ImageStorage;
use colourful_words::printer::ColouredImage;
use colourful_words::printer::ImageDataSource;

fn png_bytes(width: u32, height: u32, rgb: [u8; 3]) -> Vec<u8> {
    let mut img = image::RgbImage::new(width, height);
    for p in img.pixels_mut() {
        *p = image::Rgb(rgb);
    }
    let mut bytes: Vec<u8> = Vec::new();
    img.write_to(
        &mut std::io::Cursor::new(&mut bytes),
        image::ImageFormat::Png,
    )
    .unwrap();
    bytes
}

#[test]
fn cell_string_white_picks_lightest_glyph() {
    assert_eq!(
        cell_string(255, 255, 255),
        "\u{1b}[38;2;255;255;255m.\u{1b}[0m"
    );
}

#[test]
fn cell_string_black_picks_densest_glyph() {
    assert_eq!(cell_string(0, 0, 0), "\u{1b}[38;2;0;0;0m@\u{1b}[0m");
}

#[test]
fn cell_string_mid_brightness() {
    // brightness 127 -> index (127 * 12 + 127) / 255 = 6 -> '*'
    assert_eq!(
        cell_string(127, 127, 127),
        "\u{1b}[38;2;127;127;127m*\u{1b}[0m"
    );
}

#[test]
fn cell_string_mixed_channels() {
    // brightness (10 + 20 + 30) / 3 = 20 -> index (20 * 12 + 127) / 255 = 1 -> '#'
    assert_eq!(cell_string(10, 20, 30), "\u{1b}[38;2;10;20;30m#\u{1b}[0m");
}

#[test]
fn palette_ends() {
    assert_eq!(palette_glyph(0), '@');
    assert_eq!(palette_glyph(6), '*');
    assert_eq!(palette_glyph(12), '.');
}

#[test]
fn target_height_keeps_aspect() {
    assert_eq!(target_height(2, 4, 2), 4);
    assert_eq!(target_height(4, 2, 8), 4);
}

#[test]
fn target_height_floors_at_one() {
    assert_eq!(target_height(100, 1, 50), 1);
    assert_eq!(target_height(2, 2, 1), 1);
}

#[test]
fn convert_white_two_by_two_to_width_one() {
    let bytes = png_bytes(2, 2, [255, 255, 255]);
    let data = convert_image(1, "white".to_string(), &bytes).unwrap();
    let (name, grid) = data.into_parts();
    assert_eq!(name, "white");
    assert_eq!(grid.len(), 1);
    assert_eq!(grid[0].len(), 1);
    let cell = &grid[0][0];
    assert!(cell.starts_with("\u{1b}[38;2;"));
    assert!(cell.ends_with("m.\u{1b}[0m"));
}

#[test]
fn convert_keeps_width_and_aspect() {
    let bytes = png_bytes(2, 4, [0, 0, 0]);
    let data = convert_image(2, "tall".to_string(), &bytes).unwrap();
    let (_, grid) = data.into_parts();
    assert_eq!(grid.len(), 4);
    for row in &grid {
        assert_eq!(row.len(), 2);
    }
}

#[test]
fn convert_rejects_garbage() {
    let bytes = vec![1u8, 2, 3, 4, 5];
    let r = convert_image(10, "junk".to_string(), &bytes);
    assert!(matches!(r, Err(ConverterError::ImageLoadingError)));
}

#[test]
fn convert_rejects_zero_width() {
    let bytes = png_bytes(2, 2, [9, 9, 9]);
    let r = convert_image(0, "zero".to_string(), &bytes);
    assert!(matches!(r, Err(ConverterError::ImageLoadingError)));
}

#[test]
fn converted_grid_survives_the_codec() {
    let bytes = png_bytes(2, 2, [0, 0, 0]);
    let data = convert_image(2, "kept".to_string(), &bytes).unwrap();
    let (_, grid) = data.into_parts();
    let rendered = ImageStorage::artifact_lines(&grid);
    let reloaded = ImageStorage::load_image_from_lines("kept".to_string(), &rendered).unwrap();
    let (_, parsed) = reloaded.into_parts();
    assert_eq!(parsed, grid);
}

#[test]
fn converted_image_exports_its_glyphs() {
    let bytes = png_bytes(1, 1, [0, 0, 0]);
    let data = convert_image(1, "dark".to_string(), &bytes).unwrap();
    let (_, grid) = data.into_parts();
    let image = ColouredImage::new(grid, 0, &"dark".to_string(), 5);
    assert_eq!(image.get_clipboard_version().unwrap(), "@");
}

#[test]
fn conversion_is_deterministic_across_calls() {
    let bytes = png_bytes(3, 2, [40, 90, 200]);
    let first = convert_image(2, "same".to_string(), &bytes).unwrap();
    let second = convert_image(2, "same".to_string(), &bytes).unwrap();
    let (_, grid_a) = first.into_parts();
    let (_, grid_b) = second.into_parts();
    assert_eq!(grid_a, grid_b);
}

#[test]
fn converter_error_message() {
    assert_eq!(
        ConverterError::ImageLoadingError.message(),
        "Failed to load image from memory"
    );
}

struct ByteFeed {
    items: Vec<(String, Vec<u8>)>,
    next: usize,
}

impl ImageByteSource for ByteFeed {
    fn next_image_bytes(&mut self) -> Option<(String, Vec<u8>)> {
        if self.next < self.items.len() {
            let item = self.items[self.next].clone();
            self.next += 1;
            Some(item)
        } else {
            None
        }
    }
}

#[test]
fn converter_skips_undecodable_items() {
    let feed = ByteFeed {
        items: vec![
            ("bad".to_string(), vec![0u8, 1, 2]),
            ("good".to_string(), png_bytes(2, 2, [255, 255, 255])),
        ],
        next: 0,
    };
    let mut converter = Converter::new(feed, 1);
    let first = converter.next_converted().unwrap();
    let (name, _) = first.into_parts();
    assert_eq!(name, "good");
    assert!(converter.next_converted().is_none());
}

#[test]
fn converter_as_image_data_source() {
    let feed = ByteFeed {
        items: vec![("one".to_string(), png_bytes(1, 1, [0, 0, 0]))],
        next: 0,
    };
    let mut converter = Converter::new(feed, 1);
    let first = converter.next_image().unwrap();
    let (name, grid) = first.into_parts();
    assert_eq!(name, "one");
    assert_eq!(grid, vec![vec!["\u{1b}[38;2;0;0;0m@\u{1b}[0m".to_string()]]);
    assert!(converter.next_image().is_none());
}
