//! Turning raw image bytes into coloured glyph grids.
//!
//! The `image` crate decodes and resamples the bytes; everything after that —
//! the target-height rule, the brightness-to-glyph mapping and the styled cell
//! tokens — is verified here, cell by cell.

use vstd::prelude::*;
use vstd::string::StringExecFns;
use crate::logger::Logger;
use crate::printer::ImageDataSource;
use crate::printer::PrinterImageData;
use crate::printer::last_delim;
use crate::printer::token_plain;
use crate::text::dec_chars;
use crate::text::push_u8_decimal;
use crate::text::string_of;
use rayon::iter::IntoParallelIterator;
use rayon::iter::ParallelIterator;

verus! {

/// Failures of the conversion stage.
#[derive(Debug)]
pub enum ConverterError {
    ImageLoadingError,
}

impl ConverterError {
    /// A human-readable description of the failure.
    pub fn message(&self) -> String {
        match self {
            ConverterError::ImageLoadingError => "Failed to load image from memory".to_owned(),
        }
    }
}

/// The dimensions that decoding these bytes yields, or `None` when the bytes
/// are not a recognizable image. Decoding is a pure function of the bytes, so
/// the dimensions may be given a name even though stating them is infeasible.
pub uninterp spec fn decoded_dims(bytes: Seq<u8>) -> Option<(u32, u32)>;

/// The row-major RGB buffer that decoding these bytes and resampling to
/// `width` by `height` yields. Decoding and resampling are pure functions
/// of the bytes and the dimensions, so two conversions of equal inputs
/// produce equal buffers — the name carries that determinism.
pub uninterp spec fn resized_rgb(bytes: Seq<u8>, width: int, height: int) -> Seq<u8>;

/// Relies on `image::load_from_memory`, which guesses the format and decodes
/// deterministically from the bytes alone, and on
/// `image::GenericImageView::dimensions`, which reports the decoded image's
/// width and height.
#[verifier::external_body]
fn decode_dims(bytes: &Vec<u8>) -> (r: Option<(u32, u32)>)
    ensures
        r == decoded_dims(bytes@),
{
    match image::load_from_memory(bytes.as_slice()) {
        Ok(img) => Some(image::GenericImageView::dimensions(&img)),
        Err(_) => None,
    }
}

/// Relies on `image::load_from_memory` (deterministic in the bytes, total on
/// decodable ones), `image::DynamicImage::resize_exact` (a new image of
/// exactly the requested dimensions), `DynamicImage::to_rgb8` (same
/// dimensions, three channels) and `image::ImageBuffer::into_raw` (the
/// backing buffer, one byte per channel in row-major order): the result is
/// the named `resized_rgb` buffer of exactly `3 * width * height` bytes.
#[verifier::external_body]
fn resize_decoded_to_rgb(bytes: &Vec<u8>, width: u32, height: u32) -> (pixels: Vec<u8>)
    requires
        decoded_dims(bytes@) is Some,
        width >= 1,
        height >= 1,
        3 * (width as int) * (height as int) <= usize::MAX,
    ensures
        pixels@ == resized_rgb(bytes@, width as int, height as int),
        pixels@.len() == 3 * (width as int) * (height as int),
{
    let img = image::load_from_memory(bytes.as_slice()).unwrap();
    img.resize_exact(width, height, image::imageops::FilterType::CatmullRom).to_rgb8().into_raw()
}

/// The ordered palette, densest glyph first.
pub open spec fn spec_palette(i: int) -> char {
    if i == 0 {
        '@'
    } else if i == 1 {
        '#'
    } else if i == 2 {
        'S'
    } else if i == 3 {
        '%'
    } else if i == 4 {
        '&'
    } else if i == 5 {
        '?'
    } else if i == 6 {
        '*'
    } else if i == 7 {
        '='
    } else if i == 8 {
        '+'
    } else if i == 9 {
        '-'
    } else if i == 10 {
        ':'
    } else if i == 11 {
        ','
    } else {
        '.'
    }
}

/// The glyph at palette position `i`.
pub fn palette_glyph(i: usize) -> (c: char)
    requires
        i < 13,
    ensures
        c == spec_palette(i as int),
{
    match i {
        0 => '@',
        1 => '#',
        2 => 'S',
        3 => '%',
        4 => '&',
        5 => '?',
        6 => '*',
        7 => '=',
        8 => '+',
        9 => '-',
        10 => ':',
        11 => ',',
        _ => '.',
    }
}

/// Integer average of the three channels.
pub open spec fn spec_brightness(r: u8, g: u8, b: u8) -> int {
    (r + g + b) / 3
}

/// Palette position for a brightness, rounded to nearest with ties upward.
pub open spec fn spec_char_index(brightness: int) -> int {
    (brightness * 12 + 127) / 255
}

/// The styled token for one pixel: a truecolor foreground tag, the palette
/// glyph chosen by the pixel's brightness, and the style reset.
pub open spec fn cell_chars(r: u8, g: u8, b: u8) -> Seq<char> {
    seq!['\u{1b}', '[', '3', '8', ';', '2', ';'] + dec_chars(r as int) + seq![';'] + dec_chars(
        g as int,
    ) + seq![';'] + dec_chars(b as int) + seq![
        'm',
        spec_palette(spec_char_index(spec_brightness(r, g, b))),
    ] + seq!['\u{1b}', '[', '0', 'm']
}

/// Builds the styled token for one RGB pixel.
pub fn cell_string(r: u8, g: u8, b: u8) -> (s: String)
    ensures
        s@ == cell_chars(r, g, b),
{
    let mut v: Vec<char> = Vec::new();
    v.push('\u{1b}');
    v.push('[');
    v.push('3');
    v.push('8');
    v.push(';');
    v.push('2');
    v.push(';');
    push_u8_decimal(&mut v, r);
    v.push(';');
    push_u8_decimal(&mut v, g);
    v.push(';');
    push_u8_decimal(&mut v, b);
    v.push('m');
    let brightness: u32 = (r as u32 + g as u32 + b as u32) / 3;
    let index: u32 = (brightness * 12 + 127) / 255;
    v.push(palette_glyph(index as usize));
    v.push('\u{1b}');
    v.push('[');
    v.push('0');
    v.push('m');
    let s = string_of(&v);
    proof {
        assert(v@ =~= cell_chars(r, g, b));
    }
    s
}

/// The channel byte of pixel `(x, y)` in a row-major RGB buffer.
pub open spec fn pixel_channel(pixels: Seq<u8>, width: int, x: int, y: int, c: int) -> u8 {
    pixels[3 * (y * width + x) + c]
}

/// Row `y` of the converted grid: one styled token per pixel of that row.
pub open spec fn spec_row(pixels: Seq<u8>, width: int, y: int) -> Seq<Seq<char>> {
    Seq::new(
        width as nat,
        |x: int|
            cell_chars(
                pixel_channel(pixels, width, x, y, 0),
                pixel_channel(pixels, width, x, y, 1),
                pixel_channel(pixels, width, x, y, 2),
            ),
    )
}

/// The full converted grid for a row-major RGB buffer.
pub open spec fn spec_grid(pixels: Seq<u8>, width: int, height: int) -> Seq<Seq<Seq<char>>> {
    Seq::new(height as nat, |y: int| spec_row(pixels, width, y))
}

/// Converts one row of the RGB buffer to its styled tokens.
pub fn convert_row(pixels: &Vec<u8>, width: u32, y: u32) -> (row: Vec<String>)
    requires
        width >= 1,
        3 * ((y as int) + 1) * (width as int) <= pixels@.len(),
    ensures
        row.deep_view() == spec_row(pixels@, width as int, y as int),
{
    let mut row: Vec<String> = Vec::new();
    let n: usize = pixels.len();
    proof {
        assert(3 * (y as int) * (width as int) + 3 * (width as int) <= pixels@.len() && 3 * (
        y as int) <= 3 * (y as int) * (width as int)) by (nonlinear_arith)
            requires
                width >= 1,
                3 * ((y as int) + 1) * (width as int) <= pixels@.len(),
        ;
    }
    let base: usize = 3 * (y as usize) * (width as usize);
    let mut x: usize = 0;
    while x < width as usize
        invariant
            width >= 1,
            x <= width,
            base == 3 * (y as int) * (width as int),
            3 * ((y as int) + 1) * (width as int) <= pixels@.len(),
            n == pixels@.len(),
            row@.len() == x,
            forall|i: int|
                0 <= i < x ==> row@[i]@ == spec_row(pixels@, width as int, y as int)[i],
        decreases width as int - x,
    {
        proof {
            assert(base + 3 * x + 2 < pixels@.len()) by (nonlinear_arith)
                requires
                    base == 3 * (y as int) * (width as int),
                    3 * ((y as int) + 1) * (width as int) <= pixels@.len(),
                    0 <= x < width as int,
            ;
        }
        let r = pixels[base + 3 * x];
        let g = pixels[base + 3 * x + 1];
        let b = pixels[base + 3 * x + 2];
        let cell = cell_string(r, g, b);
        proof {
            assert(base + 3 * x == 3 * ((y as int) * (width as int) + x)) by (nonlinear_arith)
                requires
                    base == 3 * (y as int) * (width as int),
            ;
        }
        row.push(cell);
        x = x + 1;
    }
    assert(row.deep_view() =~= spec_row(pixels@, width as int, y as int));
    row
}

/// Relies on rayon's `IntoParallelIterator` for ranges together with
/// `ParallelIterator::map` and `collect`: an indexed parallel map collects
/// its results in index order, whatever order the workers finish in. Each
/// row itself comes from the verified `convert_row`.
#[verifier::external_body]
fn convert_rows_parallel(pixels: &Vec<u8>, width: u32, height: u32) -> (rows: Vec<Vec<String>>)
    requires
        width >= 1,
        height >= 1,
        pixels@.len() == 3 * (width as int) * (height as int),
    ensures
        rows.deep_view() == spec_grid(pixels@, width as int, height as int),
{
    (0..height).into_par_iter().map(|y| convert_row(pixels, width, y)).collect()
}

/// The aspect-preserving target height: `max(1, oh * w / ow)`.
pub open spec fn spec_target_height(ow: int, oh: int, w: int) -> int {
    let h = oh * w / ow;
    if h < 1 {
        1
    } else {
        h
    }
}

/// Computes the target height for a resize to width `w`.
pub fn target_height(ow: u32, oh: u32, w: u32) -> (h: u32)
    requires
        ow >= 1,
        (oh as int) * (w as int) / (ow as int) <= u32::MAX,
    ensures
        h as int == spec_target_height(ow as int, oh as int, w as int),
        h >= 1,
{
    proof {
        assert((oh as int) * (w as int) <= 0xffff_ffff * 0xffff_ffff) by (nonlinear_arith)
            requires
                oh as int <= 0xffff_ffff,
                w as int <= 0xffff_ffff,
        ;
    }
    let wide: u64 = (oh as u64) * (w as u64) / (ow as u64);
    let h: u32 = wide as u32;
    if h < 1 {
        1
    } else {
        h
    }
}

/// Whether these bytes convert successfully at width `w`: they decode, and
/// the resulting dimensions are usable on this machine.
pub open spec fn convertible(bytes: Seq<u8>, w: int) -> bool {
    match decoded_dims(bytes) {
        Some(dims) => {
            let ow = dims.0 as int;
            let oh = dims.1 as int;
            &&& w >= 1
            &&& ow >= 1
            &&& oh * w / ow <= u32::MAX
            &&& 3 * w * spec_target_height(ow, oh, w) <= usize::MAX
        },
        None => false,
    }
}

/// Shape of a converted grid: at least one row, and every row exactly
/// `width` cells wide.
pub open spec fn grid_shaped(grid: Seq<Seq<Seq<char>>>, width: int) -> bool {
    &&& grid.len() >= 1
    &&& forall|i: int| 0 <= i < grid.len() ==> #[trigger] grid[i].len() == width
}

/// Converts raw image bytes into a named grid of styled tokens, failing
/// exactly when the bytes do not decode or the dimensions are unusable.
pub fn convert_image(image_width: u32, image_name: String, image_bytes: &Vec<u8>) -> (r: Result<
    PrinterImageData,
    ConverterError,
>)
    ensures
        r is Ok <==> convertible(image_bytes@, image_width as int),
        r matches Ok(d) ==> {
            &&& d.name() == image_name@
            &&& decoded_dims(image_bytes@) matches Some(dims) && {
                let h = spec_target_height(dims.0 as int, dims.1 as int, image_width as int);
                &&& resized_rgb(image_bytes@, image_width as int, h).len() == 3 * (
                image_width as int) * h
                &&& d.grid() == spec_grid(
                    resized_rgb(image_bytes@, image_width as int, h),
                    image_width as int,
                    h,
                )
            }
            &&& grid_shaped(d.grid(), image_width as int)
        },
        r matches Err(e) ==> e is ImageLoadingError,
{
    if image_width == 0 {
        return Err(ConverterError::ImageLoadingError);
    }
    let decoded = decode_dims(image_bytes);
    match decoded {
        None => Err(ConverterError::ImageLoadingError),
        Some((ow, oh)) => {
            if ow == 0 {
                return Err(ConverterError::ImageLoadingError);
            }
            proof {
                assert((oh as int) * (image_width as int) <= 0xffff_ffff * 0xffff_ffff)
                    by (nonlinear_arith)
                    requires
                        oh as int <= 0xffff_ffff,
                        image_width as int <= 0xffff_ffff,
                ;
            }
            let ratio: u64 = (oh as u64) * (image_width as u64) / (ow as u64);
            if ratio > u32::MAX as u64 {
                return Err(ConverterError::ImageLoadingError);
            }
            let height = target_height(ow, oh, image_width);
            if (height as u64) > usize::MAX as u64 / 3 / (image_width as u64) {
                proof {
                    assert(!(3 * (image_width as int) * spec_target_height(
                        ow as int,
                        oh as int,
                        image_width as int,
                    ) <= usize::MAX)) by (nonlinear_arith)
                        requires
                            height as int == spec_target_height(
                                ow as int,
                                oh as int,
                                image_width as int,
                            ),
                            image_width >= 1,
                            height as int > (usize::MAX as int) / 3 / (image_width as int),
                    ;
                }
                return Err(ConverterError::ImageLoadingError);
            }
            proof {
                assert(3 * (image_width as int) * (height as int) <= usize::MAX)
                    by (nonlinear_arith)
                    requires
                        image_width >= 1,
                        height as int <= (usize::MAX as int) / 3 / (image_width as int),
                ;
            }
            let pixels = resize_decoded_to_rgb(image_bytes, image_width, height);
            let rows = convert_rows_parallel(&pixels, image_width, height);
            let data = PrinterImageData::new(image_name, rows);
            proof {
                let h = spec_target_height(ow as int, oh as int, image_width as int);
                assert(data.grid() == spec_grid(pixels@, image_width as int, h));
                assert(grid_shaped(data.grid(), image_width as int));
            }
            Ok(data)
        },
    }
}

/// A single-pass upstream source of named raw image bytes. A pull that
/// produces an item consumes it: the remaining supply shrinks, so a consumer
/// that keeps pulling eventually sees `None`.
pub trait ImageByteSource {
    /// How many items the source can still yield: the termination measure
    /// of every consumer that keeps pulling. A verified implementation
    /// overrides it and proves the promise below; an implementation outside
    /// the verifier keeps the default and its promise goes unchecked.
    open spec fn remaining(&self) -> nat {
        0
    }

    fn next_image_bytes(&mut self) -> (r: Option<(String, Vec<u8>)>)
        ensures
            r is Some ==> final(self).remaining() < old(self).remaining(),
    ;
}

/// Lazily converts every image pulled from an upstream byte source,
/// skipping items that fail to convert.
pub struct Converter<S: ImageByteSource> {
    image_iterator: S,
    image_width: u32,
}

impl<S: ImageByteSource> Converter<S> {
    /// The target width every produced grid will have.
    pub closed spec fn width(&self) -> u32 {
        self.image_width
    }

    /// The upstream source.
    pub closed spec fn source(&self) -> S {
        self.image_iterator
    }

    pub fn new(image_iterator: S, image_width: u32) -> (c: Self)
        requires
            image_width >= 1,
        ensures
            c.width() == image_width,
            c.source() == image_iterator,
    {
        Self { image_iterator, image_width }
    }

    /// Pulls and converts until an image converts or the source runs dry.
    /// Every produced grid is a converted grid: at least one row, each
    /// exactly `width` wide, every cell a styled token of some RGB buffer.
    pub fn next_converted(&mut self) -> (r: Option<PrinterImageData>)
        ensures
            final(self).width() == old(self).width(),
            r matches Some(d) ==> grid_shaped(d.grid(), final(self).width() as int),
            r matches Some(d) ==> exists|pixels: Seq<u8>, h: int|
                {
                    &&& h >= 1
                    &&& pixels.len() == 3 * (final(self).width() as int) * h
                    &&& d.grid() == #[trigger] spec_grid(pixels, final(self).width() as int, h)
                },
    {
        loop
            invariant
                self.image_width == old(self).image_width,
            decreases self.image_iterator.remaining(),
        {
            match self.image_iterator.next_image_bytes() {
                Some(item) => {
                    let (image_name, image_bytes) = item;
                    let name_for_log = image_name.clone();
                    match convert_image(self.image_width, image_name, &image_bytes) {
                        Ok(data) => {
                            proof {
                                let dims = decoded_dims(image_bytes@).unwrap();
                                let w = self.image_width as int;
                                let h = spec_target_height(dims.0 as int, dims.1 as int, w);
                                assert(h >= 1);
                                assert(resized_rgb(image_bytes@, w, h).len() == 3 * w * h);
                                assert(data.grid() == spec_grid(
                                    resized_rgb(image_bytes@, w, h),
                                    w,
                                    h,
                                ));
                                assert(exists|pixels: Seq<u8>, hh: int|
                                    {
                                        &&& hh >= 1
                                        &&& pixels.len() == 3 * w * hh
                                        &&& data.grid() == #[trigger] spec_grid(pixels, w, hh)
                                    });
                            }
                            return Some(data);
                        },
                        Err(e) => {
                            let mut note = "Failed to convert image '".to_owned();
                            note.append(name_for_log.as_str());
                            note.append("': ");
                            note.append(e.message().as_str());
                            Logger::log_error(note.as_str());
                        },
                    }
                },
                None => {
                    return None;
                },
            }
        }
    }
}

impl<S: ImageByteSource> ImageDataSource for Converter<S> {
    fn next_image(&mut self) -> Option<PrinterImageData> {
        self.next_converted()
    }
}

/// No digit is a space.
proof fn lemma_dec_chars_no_space(n: int)
    ensures
        forall|i: int| 0 <= i < dec_chars(n).len() ==> dec_chars(n)[i] != ' ',
{
    assert(forall|d: int| crate::text::digit_char(d) != ' ');
}

/// A converter token never holds a space, so a converted grid survives the
/// storage codec unchanged.
pub proof fn lemma_cell_chars_storable(r: u8, g: u8, b: u8)
    ensures
        !cell_chars(r, g, b).contains(' '),
{
    lemma_dec_chars_no_space(r as int);
    lemma_dec_chars_no_space(g as int);
    lemma_dec_chars_no_space(b as int);
    let t = cell_chars(r, g, b);
    assert forall|k: int| 0 <= k < t.len() implies t[k] != ' ' by {
        assert(forall|i: int| crate::text::digit_char(i) != ' ');
        assert(spec_palette(spec_char_index(spec_brightness(r, g, b))) != ' ');
    }
}

/// The colourless export of a converted row is exactly its palette
/// glyphs, one per pixel.
pub proof fn lemma_converted_row_exports_glyphs(pixels: Seq<u8>, w: int, y: int)
    ensures
        crate::printer::row_plain(spec_row(pixels, w, y)) == Seq::new(
            w as nat,
            |x: int|
                spec_palette(
                    spec_char_index(
                        spec_brightness(
                            pixel_channel(pixels, w, x, y, 0),
                            pixel_channel(pixels, w, x, y, 1),
                            pixel_channel(pixels, w, x, y, 2),
                        ),
                    ),
                ),
        ),
{
    let row = spec_row(pixels, w, y);
    assert forall|x: int| 0 <= x < row.len() implies #[trigger] token_plain(row[x]) == Some(
        spec_palette(
            spec_char_index(
                spec_brightness(
                    pixel_channel(pixels, w, x, y, 0),
                    pixel_channel(pixels, w, x, y, 1),
                    pixel_channel(pixels, w, x, y, 2),
                ),
            ),
        ),
    ) by {
        lemma_cell_token_plain(
            pixel_channel(pixels, w, x, y, 0),
            pixel_channel(pixels, w, x, y, 1),
            pixel_channel(pixels, w, x, y, 2),
        );
    }
    assert(crate::printer::row_plain(row) =~= Seq::new(
        w as nat,
        |x: int|
            spec_palette(
                spec_char_index(
                    spec_brightness(
                        pixel_channel(pixels, w, x, y, 0),
                        pixel_channel(pixels, w, x, y, 1),
                        pixel_channel(pixels, w, x, y, 2),
                    ),
                ),
            ),
    ));
}

/// A converter token exports exactly its palette glyph: the delimiter
/// search inside the token always lands on the `'m'` that closes the
/// colour tag.
pub proof fn lemma_cell_token_plain(r: u8, g: u8, b: u8)
    ensures
        token_plain(cell_chars(r, g, b)) == Some(
            spec_palette(spec_char_index(spec_brightness(r, g, b))),
        ),
{
    let t = cell_chars(r, g, b);
    let n = t.len() as int;
    let glyph = spec_palette(spec_char_index(spec_brightness(r, g, b)));
    assert(t[n - 1] == 'm' && t[n - 2] == '0' && t[n - 3] == '[' && t[n - 4] == '\u{1b}' && t[n
        - 5] == glyph && t[n - 6] == 'm');
    assert(glyph != 'm');
    assert(last_delim(t, n - 2) == last_delim(t, n - 3));
    assert(last_delim(t, n - 3) == last_delim(t, n - 4));
    assert(last_delim(t, n - 4) == last_delim(t, n - 5));
    assert(last_delim(t, n - 5) == Some(n - 6));
    assert(token_plain(t) == Some(t[n - 5]));
}

} // verus!
