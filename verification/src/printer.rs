//! The navigable image cache and the renderer-facing decisions.
//!
//! `Printer` owns an append-only list of coloured images and a cursor into
//! it; moving forward past the frontier pulls at most one new image from the
//! generic upstream source. Printing decisions — what to draw, in which
//! order, with which delay — are computed and verified here; executing the
//! terminal writes is the caller's business.

use vstd::prelude::*;
use crate::text::chars_of;
use crate::text::string_of;
use rand::seq::SliceRandom;

verus! {

broadcast use
    vstd::seq_lib::group_to_multiset_ensures,
    vstd::multiset::group_multiset_properties,
;

/// Failures of printing and navigation.
#[derive(Debug)]
pub enum PrinterError {
    NoImageLeftError,
    NoImagesRegisteredError,
    IoError(std::io::Error),
    EmptyImageError,
    ClipboardError,
    InvalidImageError,
}

#[verifier::external_type_specification]
#[verifier::external_body]
pub struct ExIoError(std::io::Error);

/// Relies on `std::fmt::Display for std::io::Error`: renders the error text.
#[verifier::external_body]
fn io_error_message(e: &std::io::Error) -> String {
    format!("{}", e)
}

impl PrinterError {
    /// A human-readable description of the failure.
    pub fn message(&self) -> String {
        match self {
            PrinterError::NoImageLeftError => "No images left.".to_owned(),
            PrinterError::NoImagesRegisteredError => "No images registered.".to_owned(),
            PrinterError::IoError(e) => {
                let mut m = "IO Error during print: ".to_owned();
                m.append(io_error_message(e).as_str());
                m
            },
            PrinterError::EmptyImageError => "Cannot print an empty image.".to_owned(),
            PrinterError::ClipboardError => "Failed to copy the current image to clipboard."
                .to_owned(),
            PrinterError::InvalidImageError => "Image contains invalid sequences of characters."
                .to_owned(),
        }
    }
}

/// One named grid of styled cell tokens, as produced by the converter or
/// loaded from storage.
pub struct PrinterImageData {
    image_name: String,
    image_array: Vec<Vec<String>>,
}

impl PrinterImageData {
    /// The logical name of the image.
    pub closed spec fn name(&self) -> Seq<char> {
        self.image_name@
    }

    /// The grid of cell tokens, row by row.
    pub closed spec fn grid(&self) -> Seq<Seq<Seq<char>>> {
        self.image_array.deep_view()
    }

    pub fn new(image_name: String, image_array: Vec<Vec<String>>) -> (d: Self)
        ensures
            d.name() == image_name@,
            d.grid() == image_array.deep_view(),
    {
        Self { image_name, image_array }
    }

    /// Hands the name and the grid back out.
    pub fn into_parts(self) -> (parts: (String, Vec<Vec<String>>))
        ensures
            parts.0@ == self.name(),
            parts.1.deep_view() == self.grid(),
    {
        (self.image_name, self.image_array)
    }
}

/// A lazy, single-pass upstream producer of converted images.
pub trait ImageDataSource {
    fn next_image(&mut self) -> Option<PrinterImageData>;
}

/// Whether `order` visits every cell of a `rows` by `cols` grid exactly
/// once: a bijection between the order's positions and the coordinate pairs.
pub open spec fn covers_all_cells(order: Seq<(usize, usize)>, rows: int, cols: int) -> bool {
    &&& order.len() == rows * cols
    &&& forall|p: (usize, usize)|
        #[trigger] order.to_multiset().count(p) == if (p.0 as int) < rows && (p.1 as int) < cols {
            1nat
        } else {
            0nat
        }
}

/// Relies on rand's `SliceRandom::shuffle` driven by `rand::rng()`: the
/// slice is permuted in place, so its length and the multiset of its
/// elements are unchanged, whatever permutation was drawn.
#[verifier::external_body]
fn shuffle_indices(indices: &mut Vec<(usize, usize)>)
    ensures
        final(indices)@.len() == old(indices)@.len(),
        final(indices)@.to_multiset() == old(indices)@.to_multiset(),
{
    indices.shuffle(&mut rand::rng());
}

/// Draws a random order over all cells of a `rows` by `columns` grid:
/// every coordinate pair appears exactly once.
pub fn get_random_indices(rows: usize, columns: usize) -> (order: Vec<(usize, usize)>)
    ensures
        covers_all_cells(order@, rows as int, columns as int),
{
    let mut indices: Vec<(usize, usize)> = Vec::new();
    let mut row: usize = 0;
    while row < rows
        invariant
            row <= rows,
            indices@.len() == row * columns,
            forall|p: (usize, usize)|
                #[trigger] indices@.to_multiset().count(p) == if (p.0 as int) < row && (
                p.1 as int) < columns {
                    1nat
                } else {
                    0nat
                },
        decreases rows - row,
    {
        let mut col: usize = 0;
        while col < columns
            invariant
                row < rows,
                col <= columns,
                indices@.len() == row * columns + col,
                forall|p: (usize, usize)|
                    #[trigger] indices@.to_multiset().count(p) == if ((p.0 as int) < row && (
                    p.1 as int) < columns) || (p.0 == row && (p.1 as int) < col) {
                        1nat
                    } else {
                        0nat
                    },
            decreases columns - col,
        {
            proof {
                let before = indices@;
                assert(before.to_multiset().count((row, col)) == 0);
            }
            indices.push((row, col));
            col = col + 1;
        }
        proof {
            assert((row as int) * (columns as int) + columns as int == ((row as int) + 1) * (
            columns as int)) by (nonlinear_arith);
        }
        row = row + 1;
    }
    shuffle_indices(&mut indices);
    indices
}

/// One renderer decision: either reveal the image cell by cell in the given
/// order with the given delay, or redraw it at once. `position` is the
/// zero-based place of the image in the cache.
pub enum RenderPass {
    Reveal { position: usize, delay_ms: u16, order: Vec<(usize, usize)> },
    Redraw { position: usize },
}

/// The index of the last `'m'` strictly before position `n` of the token.
pub open spec fn last_delim(t: Seq<char>, n: int) -> Option<int>
    decreases n,
{
    if n <= 0 {
        None
    } else if t[n - 1] == 'm' {
        Some(n - 1)
    } else {
        last_delim(t, n - 1)
    }
}

/// The plain character a styled token exports: the character right after
/// the last `'m'` found when the token's final two characters are ignored,
/// or nothing when the delimiter is missing.
pub open spec fn token_plain(t: Seq<char>) -> Option<char> {
    if t.len() < 2 {
        None
    } else {
        match last_delim(t, t.len() - 2) {
            Some(j) => Some(t[j + 1]),
            None => None,
        }
    }
}

/// Finds the exported plain character of one styled token.
fn token_plain_char(cell: &Vec<char>) -> (r: Option<char>)
    ensures
        r == token_plain(cell@),
{
    let n: usize = cell.len();
    if n < 2 {
        return None;
    }
    let mut m: usize = n - 2;
    loop
        invariant
            m <= n - 2,
            n == cell@.len(),
            n >= 2,
            last_delim(cell@, n - 2) == last_delim(cell@, m as int),
        decreases m,
    {
        if m == 0 {
            return None;
        }
        if cell[m - 1] == 'm' {
            return Some(cell[m]);
        }
        m = m - 1;
    }
}

/// Whether every token of the row exports a plain character.
pub open spec fn row_exportable(row: Seq<Seq<char>>) -> bool {
    forall|i: int| 0 <= i < row.len() ==> #[trigger] token_plain(row[i]) is Some
}

/// Whether every token of the grid exports a plain character.
pub open spec fn grid_exportable(g: Seq<Seq<Seq<char>>>) -> bool {
    forall|i: int| 0 <= i < g.len() ==> #[trigger] row_exportable(g[i])
}

/// The plain characters of one row, in order.
pub open spec fn row_plain(row: Seq<Seq<char>>) -> Seq<char> {
    Seq::new(row.len(), |i: int| token_plain(row[i]).unwrap())
}

/// The plain rendering of the grid: each row's plain characters followed by
/// a newline.
pub open spec fn plain_text(g: Seq<Seq<Seq<char>>>) -> Seq<char>
    decreases g.len(),
{
    if g.len() == 0 {
        Seq::empty()
    } else {
        row_plain(g[0]) + seq!['\n'] + plain_text(g.drop_first())
    }
}

proof fn lemma_plain_text_push(g: Seq<Seq<Seq<char>>>, r: Seq<Seq<char>>)
    ensures
        plain_text(g.push(r)) == plain_text(g) + row_plain(r) + seq!['\n'],
    decreases g.len(),
{
    if g.len() == 0 {
        assert(g.push(r).drop_first() =~= Seq::<Seq<Seq<char>>>::empty());
        assert(g.push(r)[0] == r);
        assert(plain_text(g.push(r)) == row_plain(r) + seq!['\n'] + plain_text(
            Seq::<Seq<Seq<char>>>::empty(),
        ));
        assert(plain_text(g.push(r)) =~= plain_text(g) + row_plain(r) + seq!['\n']);
    } else {
        lemma_plain_text_push(g.drop_first(), r);
        assert(g.push(r).drop_first() =~= g.drop_first().push(r));
        assert(g.push(r)[0] == g[0]);
        assert(plain_text(g.push(r)) == row_plain(g[0]) + seq!['\n'] + plain_text(
            g.drop_first().push(r),
        ));
        assert(plain_text(g.push(r)) =~= plain_text(g) + row_plain(r) + seq!['\n']);
    }
}

/// One coloured image together with its reveal state.
pub struct ColouredImage {
    image_array: Vec<Vec<String>>,
    index: usize,
    image_name: String,
    is_rendered: bool,
    printing_rate_ms: u16,
}

impl ColouredImage {
    /// The grid of styled cell tokens.
    pub closed spec fn grid(&self) -> Seq<Seq<Seq<char>>> {
        self.image_array.deep_view()
    }

    /// The logical name of the image.
    pub closed spec fn name(&self) -> Seq<char> {
        self.image_name@
    }

    /// Whether the image has already been revealed once.
    pub closed spec fn rendered(&self) -> bool {
        self.is_rendered
    }

    /// The zero-based place of the image in its cache.
    pub closed spec fn position(&self) -> int {
        self.index as int
    }

    /// The reveal delay this image was registered with.
    pub closed spec fn rate(&self) -> u16 {
        self.printing_rate_ms
    }

    /// Whether the grid has a first row and that row has a first cell.
    pub open spec fn showable(&self) -> bool {
        self.grid().len() > 0 && self.grid()[0].len() > 0
    }

    pub fn new(
        image_array: Vec<Vec<String>>,
        index: usize,
        image_name: &String,
        printing_rate_ms: u16,
    ) -> (img: Self)
        ensures
            img.grid() == image_array.deep_view(),
            img.name() == image_name@,
            img.position() == index as int,
            img.rendered() == false,
            img.rate() == printing_rate_ms,
    {
        Self {
            image_array,
            index,
            image_name: image_name.clone(),
            is_rendered: false,
            printing_rate_ms,
        }
    }

    /// Decides how the image is to be drawn. The first successful call hands
    /// back a reveal pass visiting every cell exactly once and marks the
    /// image rendered; later calls ask for a plain redraw. An image without
    /// a first cell is never drawn.
    pub fn print(&mut self) -> (r: Result<RenderPass, PrinterError>)
        ensures
            final(self).grid() == old(self).grid(),
            final(self).name() == old(self).name(),
            final(self).position() == old(self).position(),
            final(self).rate() == old(self).rate(),
            !old(self).showable() ==> {
                &&& r matches Err(e)
                &&& e is EmptyImageError
                &&& final(self).rendered() == old(self).rendered()
            },
            old(self).showable() ==> final(self).rendered() == true && r is Ok,
            old(self).showable() && !old(self).rendered() ==> {
                &&& r matches Ok(p)
                &&& p matches RenderPass::Reveal { position, delay_ms, order }
                &&& position as int == old(self).position()
                &&& delay_ms == old(self).rate()
                &&& covers_all_cells(
                    order@,
                    old(self).grid().len() as int,
                    old(self).grid()[0].len() as int,
                )
            },
            old(self).showable() && old(self).rendered() ==> {
                &&& r matches Ok(p)
                &&& p matches RenderPass::Redraw { position }
                &&& position as int == old(self).position()
            },
    {
        if self.image_array.len() == 0 {
            return Err(PrinterError::EmptyImageError);
        }
        let cols: usize = self.image_array[0].len();
        if cols == 0 {
            return Err(PrinterError::EmptyImageError);
        }
        if !self.is_rendered {
            let order = get_random_indices(self.image_array.len(), cols);
            self.is_rendered = true;
            Ok(
                RenderPass::Reveal {
                    position: self.index,
                    delay_ms: self.printing_rate_ms,
                    order,
                },
            )
        } else {
            Ok(RenderPass::Redraw { position: self.index })
        }
    }

    /// The colourless rendering for the clipboard: one plain character per
    /// cell, rows separated by newlines. Fails on a grid without a first
    /// cell, or when some token lacks its delimiter.
    pub fn get_clipboard_version(&self) -> (r: Result<String, PrinterError>)
        ensures
            !self.showable() ==> (r matches Err(e) && e is EmptyImageError),
            self.showable() && !grid_exportable(self.grid()) ==> (r matches Err(e) && e
                is InvalidImageError),
            self.showable() && grid_exportable(self.grid()) ==> (r matches Ok(s) && s@
                == plain_text(self.grid()).drop_last()),
    {
        if self.image_array.len() == 0 {
            return Err(PrinterError::EmptyImageError);
        }
        if self.image_array[0].len() == 0 {
            proof {
                assert(self.grid()[0].len() == self.image_array@[0]@.len());
            }
            return Err(PrinterError::EmptyImageError);
        }
        proof {
            assert(self.grid()[0].len() == self.image_array@[0]@.len());
        }
        let mut out: Vec<char> = Vec::new();
        let rows: usize = self.image_array.len();
        let mut i: usize = 0;
        while i < rows
        invariant
            self.showable(),
            rows == self.grid().len(),
            i <= rows,
            out@ == plain_text(self.grid().take(i as int)),
            forall|k: int| 0 <= k < i ==> #[trigger] row_exportable(self.grid()[k]),
        decreases rows - i,
        {
            let row_len: usize = self.image_array[i].len();
            let mut j: usize = 0;
            while j < row_len
            invariant
                self.showable(),
                rows == self.grid().len(),
                i < rows,
                j <= row_len,
                row_len == self.grid()[i as int].len(),
                out@ == plain_text(self.grid().take(i as int)) + Seq::new(
                    j as nat,
                    |k: int| token_plain(self.grid()[i as int][k]).unwrap(),
                ),
                forall|k: int|
                    0 <= k < j ==> #[trigger] token_plain(self.grid()[i as int][k]) is Some,
            decreases row_len - j,
            {
                let cell_chars_vec = chars_of(self.image_array[i][j].as_str());
                proof {
                    assert(self.grid()[i as int][j as int] == self.image_array@[i as int]@[j as int]@);
                }
                match token_plain_char(&cell_chars_vec) {
                    Some(c) => {
                        out.push(c);
                        proof {
                            assert(out@ =~= plain_text(self.grid().take(i as int)) + Seq::new(
                                (j + 1) as nat,
                                |k: int| token_plain(self.grid()[i as int][k]).unwrap(),
                            ));
                        }
                    },
                    None => {
                        proof {
                            assert(!row_exportable(self.grid()[i as int]));
                            assert(!grid_exportable(self.grid()));
                        }
                        return Err(PrinterError::InvalidImageError);
                    },
                }
                j = j + 1;
            }
            out.push('\n');
            proof {
                assert(row_exportable(self.grid()[i as int]));
                assert(Seq::new(
                    row_len as nat,
                    |k: int| token_plain(self.grid()[i as int][k]).unwrap(),
                ) =~= row_plain(self.grid()[i as int]));
                lemma_plain_text_push(self.grid().take(i as int), self.grid()[i as int]);
                assert(self.grid().take(i as int).push(self.grid()[i as int]) =~= self.grid().take(
                    i as int + 1,
                ));
                assert(out@ =~= plain_text(self.grid().take(i as int + 1)));
            }
            i = i + 1;
        }
        proof {
            assert(self.grid().take(rows as int) =~= self.grid());
            assert(plain_text(self.grid()).len() > 0);
        }
        out.pop();
        let s = string_of(&out);
        Ok(s)
    }
}

/// The navigable cache: an append-only list of coloured images fed lazily by
/// a single-pass upstream source, with a cursor over the list.
pub struct Printer<G: ImageDataSource> {
    image_generator: G,
    coloured_images: Vec<ColouredImage>,
    current_image: usize,
    printing_rate_ms: u16,
}

impl<G: ImageDataSource> Printer<G> {
    /// How many images have been materialized so far.
    pub closed spec fn num_images(&self) -> int {
        self.coloured_images@.len() as int
    }

    /// The cursor: the position of the image currently shown.
    pub closed spec fn cursor(&self) -> int {
        self.current_image as int
    }

    /// The materialized image at position `i`.
    pub closed spec fn image(&self, i: int) -> ColouredImage {
        self.coloured_images@[i]
    }

    /// The upstream source.
    pub closed spec fn source(&self) -> G {
        self.image_generator
    }

    /// The reveal delay given to newly registered images.
    pub closed spec fn rate(&self) -> u16 {
        self.printing_rate_ms
    }

    /// The image count is a real length, the cursor is valid as soon as
    /// anything is materialized, and every image knows its own position.
    pub open spec fn wf(&self) -> bool {
        &&& self.num_images() >= 0
        &&& self.num_images() > 0 ==> 0 <= self.cursor() < self.num_images()
        &&& forall|i: int|
            0 <= i < self.num_images() ==> #[trigger] self.image(i).position() == i
    }

    proof fn lemma_wf_preserved(a: Printer<G>, b: Printer<G>)
        requires
            a.wf(),
            b.num_images() == a.num_images(),
            forall|i: int| 0 <= i < a.num_images() ==> #[trigger] b.image(i) == a.image(i),
            b.num_images() > 0 ==> 0 <= b.cursor() < b.num_images(),
        ensures
            b.wf(),
    {
        assert forall|i: int| 0 <= i < b.num_images() implies #[trigger] b.image(i).position()
            == i by {
            assert(b.image(i) == a.image(i));
            assert(a.image(i).position() == i);
        }
    }

    pub fn new(image_generator: G, printing_rate_ms: u16) -> (p: Self)
        ensures
            p.wf(),
            p.num_images() == 0,
            p.cursor() == 0,
            p.source() == image_generator,
            p.rate() == printing_rate_ms,
    {
        Self { image_generator, coloured_images: Vec::new(), current_image: 0, printing_rate_ms }
    }

    /// The name and the grid of the image under the cursor; fails only when
    /// nothing has been materialized yet.
    pub fn get_current_image_data(&self) -> (r: Result<(&str, &Vec<Vec<String>>), PrinterError>)
        requires
            self.wf(),
        ensures
            self.num_images() == 0 ==> (r matches Err(e) && e is NoImagesRegisteredError),
            self.num_images() > 0 ==> (r matches Ok(t) && t.0@ == self.image(self.cursor()).name()
                && t.1.deep_view() == self.image(self.cursor()).grid()),
    {
        if self.coloured_images.len() == 0 {
            return Err(PrinterError::NoImagesRegisteredError);
        }
        let current = &self.coloured_images[self.current_image];
        Ok((current.image_name.as_str(), &current.image_array))
    }

    /// Registers a freshly pulled image at the end of the list and moves the
    /// cursor onto it.
    fn add_image_and_set_current(&mut self, image_data: PrinterImageData)
        requires
            old(self).wf(),
        ensures
            final(self).wf(),
            final(self).num_images() == old(self).num_images() + 1,
            final(self).cursor() == old(self).num_images(),
            final(self).source() == old(self).source(),
            final(self).rate() == old(self).rate(),
            forall|i: int|
                0 <= i < old(self).num_images() ==> #[trigger] final(self).image(i) == old(self).image(i),
            final(self).image(old(self).num_images()).grid() == image_data.grid(),
            final(self).image(old(self).num_images()).name() == image_data.name(),
            final(self).image(old(self).num_images()).rendered() == false,
            final(self).image(old(self).num_images()).rate() == old(self).rate(),
    {
        let new_image_index = self.coloured_images.len();
        let (name, array) = image_data.into_parts();
        let image = ColouredImage::new(array, new_image_index, &name, self.printing_rate_ms);
        let ghost prev_images = self.coloured_images@;
        let ghost new_image = image;
        self.coloured_images.push(image);
        self.current_image = new_image_index;
        proof {
            assert(self.coloured_images@ == prev_images.push(new_image));
            assert forall|i: int| 0 <= i < self.num_images() implies #[trigger] self.image(
                i,
            ).position() == i by {
                if i < prev_images.len() {
                    assert(self.image(i) == old(self).image(i));
                    assert(old(self).image(i).position() == i);
                } else {
                    assert(self.image(i) == new_image);
                }
            }
        }
    }

    /// Moves the cursor back one image. Fails with `NoImagesRegisteredError`
    /// on an empty cache and with `NoImageLeftError` at the first image;
    /// never touches the upstream source or the materialized images.
    pub fn move_to_previous_image(&mut self) -> (r: Result<(), PrinterError>)
        requires
            old(self).wf(),
        ensures
            final(self).wf(),
            final(self).num_images() == old(self).num_images(),
            final(self).source() == old(self).source(),
            final(self).rate() == old(self).rate(),
            forall|i: int|
                0 <= i < old(self).num_images() ==> #[trigger] final(self).image(i) == old(self).image(i),
            old(self).num_images() == 0 ==> (r matches Err(e) && e is NoImagesRegisteredError
                && final(self).cursor() == old(self).cursor()),
            old(self).num_images() > 0 && old(self).cursor() == 0 ==> (r matches Err(e) && e
                is NoImageLeftError && final(self).cursor() == old(self).cursor()),
            old(self).num_images() > 0 && old(self).cursor() > 0 ==> (r is Ok && final(self).cursor() == old(self).cursor() - 1),
    {
        if self.coloured_images.len() == 0 {
            return Err(PrinterError::NoImagesRegisteredError);
        }
        if self.current_image == 0 {
            return Err(PrinterError::NoImageLeftError);
        }
        self.current_image = self.current_image - 1;
        proof {
            Self::lemma_wf_preserved(*old(self), *self);
        }
        Ok(())
    }

    /// Moves the cursor forward one image. Inside the materialized list the
    /// move is pure cursor motion: no pull, nothing recomputed. At the
    /// frontier (or on an empty cache) exactly one pull is made; on success
    /// the new image is appended and the cursor moves onto it, on
    /// exhaustion the cache is left unchanged.
    pub fn move_to_next_image(&mut self) -> (r: Result<(), PrinterError>)
        requires
            old(self).wf(),
        ensures
            final(self).wf(),
            final(self).rate() == old(self).rate(),
            forall|i: int|
                0 <= i < old(self).num_images() ==> #[trigger] final(self).image(i) == old(self).image(i),
            old(self).num_images() > 0 && old(self).cursor() + 1 < old(self).num_images() ==> {
                &&& r is Ok
                &&& final(self).num_images() == old(self).num_images()
                &&& final(self).cursor() == old(self).cursor() + 1
                &&& final(self).source() == old(self).source()
            },
            old(self).num_images() == 0 || old(self).cursor() + 1 == old(self).num_images()
                ==> match r {
                Ok(_) => {
                    &&& final(self).num_images() == old(self).num_images() + 1
                    &&& final(self).cursor() == old(self).num_images()
                    &&& final(self).image(old(self).num_images()).rendered() == false
                    &&& final(self).image(old(self).num_images()).rate() == old(self).rate()
                },
                Err(e) => {
                    &&& final(self).num_images() == old(self).num_images()
                    &&& final(self).cursor() == old(self).cursor()
                    &&& old(self).num_images() == 0 ==> e is NoImagesRegisteredError
                    &&& old(self).num_images() > 0 ==> e is NoImageLeftError
                },
            },
    {
        if self.coloured_images.len() == 0 {
            return match self.image_generator.next_image() {
                Some(image_data) => {
                    proof {
                        Self::lemma_wf_preserved(*old(self), *self);
                    }
                    self.add_image_and_set_current(image_data);
                    Ok(())
                },
                None => {
                    proof {
                        Self::lemma_wf_preserved(*old(self), *self);
                    }
                    Err(PrinterError::NoImagesRegisteredError)
                },
            };
        }
        if self.current_image < self.coloured_images.len() - 1 {
            self.current_image = self.current_image + 1;
            proof {
                Self::lemma_wf_preserved(*old(self), *self);
            }
            Ok(())
        } else {
            match self.image_generator.next_image() {
                Some(image_data) => {
                    proof {
                        Self::lemma_wf_preserved(*old(self), *self);
                    }
                    self.add_image_and_set_current(image_data);
                    Ok(())
                },
                None => {
                    proof {
                        Self::lemma_wf_preserved(*old(self), *self);
                    }
                    Err(PrinterError::NoImageLeftError)
                },
            }
        }
    }

    /// Decides how the image under the cursor is to be drawn. Rendering
    /// reads the current image only: on an empty cache it fails without
    /// touching the upstream source, and otherwise only the current image's
    /// render state may change.
    pub fn print_current_image(&mut self) -> (r: Result<RenderPass, PrinterError>)
        requires
            old(self).wf(),
        ensures
            final(self).wf(),
            final(self).rate() == old(self).rate(),
            old(self).num_images() > 0 ==> {
                &&& final(self).num_images() == old(self).num_images()
                &&& final(self).cursor() == old(self).cursor()
                &&& final(self).source() == old(self).source()
                &&& forall|i: int|
                    0 <= i < old(self).num_images() && i != old(self).cursor()
                        ==> #[trigger] final(self).image(i) == old(self).image(i)
                &&& final(self).image(old(self).cursor()).grid() == old(self).image(
                    old(self).cursor(),
                ).grid()
                &&& final(self).image(old(self).cursor()).name() == old(self).image(
                    old(self).cursor(),
                ).name()
                &&& final(self).image(old(self).cursor()).rate() == old(self).image(
                    old(self).cursor(),
                ).rate()
                &&& match r {
                    Ok(p) => {
                        &&& old(self).image(old(self).cursor()).showable()
                        &&& final(self).image(old(self).cursor()).rendered() == true
                        &&& (!old(self).image(old(self).cursor()).rendered() ==> (p matches
                            RenderPass::Reveal { position, delay_ms, order } && position as int
                            == old(self).cursor() && delay_ms == old(self).image(
                            old(self).cursor(),
                        ).rate() && covers_all_cells(
                            order@,
                            old(self).image(old(self).cursor()).grid().len() as int,
                            old(self).image(old(self).cursor()).grid()[0].len() as int,
                        )))
                        &&& (old(self).image(old(self).cursor()).rendered() ==> (p matches
                            RenderPass::Redraw { position } && position as int
                            == old(self).cursor()))
                    },
                    Err(e) => {
                        &&& !old(self).image(old(self).cursor()).showable()
                        &&& e is EmptyImageError
                        &&& final(self).image(old(self).cursor()).rendered() == old(self).image(
                            old(self).cursor(),
                        ).rendered()
                    },
                }
            },
            old(self).num_images() == 0 ==> {
                &&& r matches Err(e)
                &&& e is NoImagesRegisteredError
                &&& final(self).num_images() == 0
                &&& final(self).cursor() == old(self).cursor()
                &&& final(self).source() == old(self).source()
            },
    {
        if self.coloured_images.len() == 0 {
            return Err(PrinterError::NoImagesRegisteredError);
        }
        let idx = self.current_image;
        let image = &mut self.coloured_images[idx];
        let r = image.print();
        proof {
            assert forall|i: int| 0 <= i < self.num_images() implies #[trigger] self.image(
                i,
            ).position() == i by {
                if i != idx as int {
                    assert(self.image(i) == old(self).image(i));
                }
                assert(old(self).image(i).position() == i);
            }
        }
        r
    }

    /// The colourless clipboard rendering of the image under the cursor.
    pub fn get_current_clipboard_version(&self) -> (r: Result<String, PrinterError>)
        requires
            self.wf(),
        ensures
            self.num_images() == 0 ==> (r matches Err(e) && e is NoImagesRegisteredError),
            self.num_images() > 0 && !self.image(self.cursor()).showable() ==> (r matches Err(e)
                && e is EmptyImageError),
            self.num_images() > 0 && self.image(self.cursor()).showable() && !grid_exportable(
                self.image(self.cursor()).grid(),
            ) ==> (r matches Err(e) && e is InvalidImageError),
            self.num_images() > 0 && self.image(self.cursor()).showable() && grid_exportable(
                self.image(self.cursor()).grid(),
            ) ==> (r matches Ok(s) && s@ == plain_text(self.image(self.cursor()).grid()).drop_last()),
    {
        if self.coloured_images.len() == 0 {
            return Err(PrinterError::NoImagesRegisteredError);
        }
        self.coloured_images[self.current_image].get_clipboard_version()
    }

    /// Changes the reveal delay used for images registered from now on.
    pub fn set_printing_rate(&mut self, printing_rate_ms: u16)
        requires
            old(self).wf(),
        ensures
            final(self).wf(),
            final(self).rate() == printing_rate_ms,
            final(self).num_images() == old(self).num_images(),
            final(self).cursor() == old(self).cursor(),
            final(self).source() == old(self).source(),
            forall|i: int|
                0 <= i < old(self).num_images() ==> #[trigger] final(self).image(i) == old(self).image(i),
    {
        self.printing_rate_ms = printing_rate_ms;
        proof {
            Self::lemma_wf_preserved(*old(self), *self);
        }
    }
}

} // verus!
