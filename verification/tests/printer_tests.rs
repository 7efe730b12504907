use std::cell::Cell;
use std::rc::Rc;

use colourful_words::printer::get_random_indices;
use colourful_words::printer::ColouredImage;
use colourful_words::printer::ImageDataSource;
use colourful_words::printer::Printer;
use colourful_words::printer::PrinterError;
use colourful_words::printer::PrinterImageData;
use colourful_words::printer::RenderPass;

fn token(r: u8, g: u8, b: u8, glyph: char) -> String {
    format!("\u{1b}[38;2;{};{};{}m{}\u{1b}[0m", r, g, b, glyph)
}

fn grid_of(glyphs: &[&str]) -> Vec<Vec<String>> {
    glyphs
        .iter()
        .map(|row| row.chars().map(|c| token(1, 2, 3, c)).collect())
        .collect()
}

struct MockSource {
    items: Vec<(String, Vec<Vec<String>>)>,
    next: usize,
    pulls: Rc<Cell<usize>>,
}

impl MockSource {
    fn new(items: Vec<(String, Vec<Vec<String>>)>) -> (Self, Rc<Cell<usize>>) {
        let pulls = Rc::new(Cell::new(0));
        (
            Self {
                items,
                next: 0,
                pulls: pulls.clone(),
            },
            pulls,
        )
    }
}

impl ImageDataSource for MockSource {
    fn next_image(&mut self) -> Option<PrinterImageData> {
        self.pulls.set(self.pulls.get() + 1);
        if self.next < self.items.len() {
            let (name, grid) = self.items[self.next].clone();
            self.next += 1;
            Some(PrinterImageData::new(name, grid))
        } else {
            None
        }
    }
}

#[test]
fn retreat_on_empty_cache_reports_nothing_registered() {
    let (source, _) = MockSource::new(vec![]);
    let mut printer = Printer::new(source, 5);
    assert!(matches!(
        printer.move_to_previous_image(),
        Err(PrinterError::NoImagesRegisteredError)
    ));
}

#[test]
fn retreat_after_first_advance_reports_cursor_at_start() {
    let (source, _) = MockSource::new(vec![("a".to_string(), grid_of(&["@"]))]);
    let mut printer = Printer::new(source, 5);
    assert!(printer.move_to_next_image().is_ok());
    assert!(matches!(
        printer.move_to_previous_image(),
        Err(PrinterError::NoImageLeftError)
    ));
}

#[test]
fn advance_succeeds_k_times_then_reports_exhaustion() {
    let (source, _) = MockSource::new(vec![
        ("a".to_string(), grid_of(&["@"])),
        ("b".to_string(), grid_of(&["#"])),
        ("c".to_string(), grid_of(&["S"])),
    ]);
    let mut printer = Printer::new(source, 5);
    for _ in 0..3 {
        assert!(printer.move_to_next_image().is_ok());
    }
    assert!(matches!(
        printer.move_to_next_image(),
        Err(PrinterError::NoImageLeftError)
    ));
}

#[test]
fn advance_on_empty_cache_with_dry_source() {
    let (source, _) = MockSource::new(vec![]);
    let mut printer = Printer::new(source, 5);
    assert!(matches!(
        printer.move_to_next_image(),
        Err(PrinterError::NoImagesRegisteredError)
    ));
}

#[test]
fn revisiting_a_frame_pulls_nothing() {
    let (source, pulls) = MockSource::new(vec![
        ("a".to_string(), grid_of(&["@"])),
        ("b".to_string(), grid_of(&["#"])),
    ]);
    let mut printer = Printer::new(source, 5);
    assert!(printer.move_to_next_image().is_ok());
    assert!(printer.move_to_next_image().is_ok());
    let before = pulls.get();
    assert!(printer.move_to_previous_image().is_ok());
    assert!(printer.move_to_next_image().is_ok());
    assert_eq!(pulls.get(), before);
}

#[test]
fn current_image_data_follows_the_cursor() {
    let (source, _) = MockSource::new(vec![
        ("a".to_string(), grid_of(&["@"])),
        ("b".to_string(), grid_of(&["#"])),
    ]);
    let mut printer = Printer::new(source, 5);
    assert!(matches!(
        printer.get_current_image_data(),
        Err(PrinterError::NoImagesRegisteredError)
    ));
    printer.move_to_next_image().unwrap();
    printer.move_to_next_image().unwrap();
    let (name, _) = printer.get_current_image_data().unwrap();
    assert_eq!(name, "b");
    printer.move_to_previous_image().unwrap();
    let (name, grid) = printer.get_current_image_data().unwrap();
    assert_eq!(name, "a");
    assert_eq!(grid, &grid_of(&["@"]));
}

#[test]
fn first_print_reveals_then_redraws() {
    let (source, _) = MockSource::new(vec![("a".to_string(), grid_of(&["@#", "S%"]))]);
    let mut printer = Printer::new(source, 7);
    printer.move_to_next_image().unwrap();
    match printer.print_current_image().unwrap() {
        RenderPass::Reveal {
            position,
            delay_ms,
            order,
        } => {
            assert_eq!(position, 0);
            assert_eq!(delay_ms, 7);
            let mut seen: Vec<(usize, usize)> = order.clone();
            seen.sort();
            assert_eq!(seen, vec![(0, 0), (0, 1), (1, 0), (1, 1)]);
        }
        RenderPass::Redraw { .. } => panic!("first print must reveal"),
    }
    match printer.print_current_image().unwrap() {
        RenderPass::Redraw { position } => assert_eq!(position, 0),
        RenderPass::Reveal { .. } => panic!("second print must redraw"),
    }
}

#[test]
fn print_on_empty_cache_fails_without_pulling() {
    let (source, pulls) = MockSource::new(vec![("a".to_string(), grid_of(&["@"]))]);
    let mut printer = Printer::new(source, 5);
    assert!(matches!(
        printer.print_current_image(),
        Err(PrinterError::NoImagesRegisteredError)
    ));
    assert_eq!(pulls.get(), 0);
    assert!(printer.move_to_next_image().is_ok());
    assert!(matches!(
        printer.print_current_image(),
        Ok(RenderPass::Reveal { .. })
    ));
}

#[test]
fn print_of_empty_image_fails() {
    let (source, _) = MockSource::new(vec![("empty".to_string(), vec![])]);
    let mut printer = Printer::new(source, 5);
    printer.move_to_next_image().unwrap();
    assert!(matches!(
        printer.print_current_image(),
        Err(PrinterError::EmptyImageError)
    ));
}

#[test]
fn printing_rate_applies_to_later_images() {
    let (source, _) = MockSource::new(vec![
        ("a".to_string(), grid_of(&["@"])),
        ("b".to_string(), grid_of(&["#"])),
    ]);
    let mut printer = Printer::new(source, 5);
    printer.move_to_next_image().unwrap();
    printer.set_printing_rate(0);
    printer.move_to_next_image().unwrap();
    match printer.print_current_image().unwrap() {
        RenderPass::Reveal { delay_ms, .. } => assert_eq!(delay_ms, 0),
        RenderPass::Redraw { .. } => panic!("first print must reveal"),
    }
}

#[test]
fn random_indices_visit_every_cell_once() {
    let order = get_random_indices(2, 3);
    assert_eq!(order.len(), 6);
    let mut seen = order.clone();
    seen.sort();
    seen.dedup();
    assert_eq!(seen.len(), 6);
    for (r, c) in seen {
        assert!(r < 2 && c < 3);
    }
}

#[test]
fn random_indices_of_empty_grid() {
    assert!(get_random_indices(0, 5).is_empty());
}

#[test]
fn clipboard_version_strips_colour_tags() {
    let image = ColouredImage::new(grid_of(&["@#", "S%"]), 0, &"a".to_string(), 5);
    assert_eq!(image.get_clipboard_version().unwrap(), "@#\nS%");
}

#[test]
fn clipboard_version_rejects_empty_grid() {
    let image = ColouredImage::new(vec![], 0, &"a".to_string(), 5);
    assert!(matches!(
        image.get_clipboard_version(),
        Err(PrinterError::EmptyImageError)
    ));
}

#[test]
fn clipboard_version_rejects_malformed_token() {
    let image = ColouredImage::new(
        vec![vec!["xx".to_string()]],
        0,
        &"a".to_string(),
        5,
    );
    assert!(matches!(
        image.get_clipboard_version(),
        Err(PrinterError::InvalidImageError)
    ));
}

#[test]
fn clipboard_version_finds_last_delimiter() {
    // The character right after the last 'm' before the final two characters.
    let image = ColouredImage::new(vec![vec!["mXqr".to_string()]], 0, &"a".to_string(), 5);
    assert_eq!(image.get_clipboard_version().unwrap(), "X");
}

#[test]
fn printer_clipboard_of_current_image() {
    let (source, _) = MockSource::new(vec![("a".to_string(), grid_of(&["@"]))]);
    let mut printer = Printer::new(source, 5);
    assert!(matches!(
        printer.get_current_clipboard_version(),
        Err(PrinterError::NoImagesRegisteredError)
    ));
    printer.move_to_next_image().unwrap();
    assert_eq!(printer.get_current_clipboard_version().unwrap(), "@");
}

#[test]
fn io_error_message_carries_the_cause() {
    let e = std::io::Error::new(std::io::ErrorKind::Other, "boom");
    assert_eq!(
        PrinterError::IoError(e).message(),
        "IO Error during print: boom"
    );
}

#[test]
fn printer_error_messages() {
    assert_eq!(PrinterError::NoImageLeftError.message(), "No images left.");
    assert_eq!(
        PrinterError::NoImagesRegisteredError.message(),
        "No images registered."
    );
    assert_eq!(
        PrinterError::EmptyImageError.message(),
        "Cannot print an empty image."
    );
    assert_eq!(
        PrinterError::InvalidImageError.message(),
        "Image contains invalid sequences of characters."
    );
}
