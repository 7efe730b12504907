//! The storage codec: coloured grids as plain-text artifacts.
//!
//! An artifact holds one line per row, the row's cell tokens joined by a
//! single space, and is named `<unix-seconds>_<name>.cwi`. The rendering and
//! the parsing — including the per-file width check that declares a single
//! artifact corrupt without disturbing its neighbours — are verified here;
//! reading and writing the actual files is the caller's business.

use vstd::prelude::*;
use crate::logger::Logger;
use crate::printer::ImageDataSource;
use crate::printer::PrinterImageData;
use crate::text::chars_of;
use crate::text::dec_chars_wide;
use crate::text::push_u64_decimal;
use crate::text::string_of;

verus! {

/// Failures of saving and loading artifacts.
#[derive(Debug)]
pub enum StorageError {
    SavePathError,
    SaveError,
    LoadError(String),
    NotADirError,
    OpeningDirError,
    IoError(std::io::Error),
}

/// Relies on `std::fmt::Display for std::io::Error`: renders the error text.
#[verifier::external_body]
fn io_error_text(e: &std::io::Error) -> String {
    format!("{}", e)
}

impl StorageError {
    /// A human-readable description of the failure.
    pub fn message(&self) -> String {
        match self {
            StorageError::SavePathError => "Given save path is not a valid directory".to_owned(),
            StorageError::SaveError => "Could not save image to the given save directory"
                .to_owned(),
            StorageError::LoadError(image_name) => {
                let mut m = "Image ".to_owned();
                m.append(image_name.as_str());
                m.append(" couldn't be loaded");
                m
            },
            StorageError::NotADirError => "Failed to search for given keyword".to_owned(),
            StorageError::OpeningDirError => "Failed to open the given directory".to_owned(),
            StorageError::IoError(e) => {
                let mut m = "IO error: ".to_owned();
                m.append(io_error_text(e).as_str());
                m
            },
        }
    }
}

/// The cells of one artifact line: split at every single space, empty
/// pieces kept, so one cell always exists even in an empty line.
pub open spec fn split_cells(s: Seq<char>) -> Seq<Seq<char>>
    decreases s.len(),
{
    if s.len() == 0 {
        seq![Seq::<char>::empty()]
    } else if s[0] == ' ' {
        seq![Seq::<char>::empty()] + split_cells(s.drop_first())
    } else {
        let rest = split_cells(s.drop_first());
        seq![seq![s[0]] + rest[0]] + rest.drop_first()
    }
}

/// One artifact line for a row: the cells joined by single spaces.
pub open spec fn join_cells(row: Seq<Seq<char>>) -> Seq<char>
    decreases row.len(),
{
    if row.len() == 0 {
        Seq::empty()
    } else if row.len() == 1 {
        row[0]
    } else {
        row[0] + seq![' '] + join_cells(row.drop_first())
    }
}

/// The lines a grid is persisted as.
pub open spec fn rendered_lines(grid: Seq<Seq<Seq<char>>>) -> Seq<Seq<char>> {
    Seq::new(grid.len(), |i: int| join_cells(grid[i]))
}

/// The grid an artifact's lines describe.
pub open spec fn parsed_grid(lines: Seq<Seq<char>>) -> Seq<Seq<Seq<char>>> {
    Seq::new(lines.len(), |i: int| split_cells(lines[i]))
}

/// Whether every line carries as many cells as the first one: the per-file
/// invariant checked on load.
pub open spec fn lines_consistent(lines: Seq<Seq<char>>) -> bool {
    forall|i: int|
        0 <= i < lines.len() ==> #[trigger] split_cells(lines[i]).len() == split_cells(
            lines[0],
        ).len()
}

/// A split never yields zero cells.
pub proof fn lemma_split_nonempty(s: Seq<char>)
    ensures
        split_cells(s).len() >= 1,
    decreases s.len(),
{
    if s.len() > 0 {
        lemma_split_nonempty(s.drop_first());
    }
}

/// A token without spaces is one whole cell.
pub proof fn lemma_split_no_space(c: Seq<char>)
    requires
        !c.contains(' '),
    ensures
        split_cells(c) == seq![c],
    decreases c.len(),
{
    if c.len() == 0 {
        assert(c =~= Seq::<char>::empty());
        assert(split_cells(c) =~= seq![c]);
    } else {
        assert(c[0] != ' ');
        assert(!c.drop_first().contains(' ')) by {
            if c.drop_first().contains(' ') {
                let k = choose|k: int|
                    0 <= k < c.drop_first().len() && c.drop_first()[k] == ' ';
                assert(c[k + 1] == ' ');
            }
        }
        lemma_split_no_space(c.drop_first());
        let rest = split_cells(c.drop_first());
        assert(rest == seq![c.drop_first()]);
        assert(rest.drop_first() =~= Seq::<Seq<char>>::empty());
        assert(seq![c[0]] + rest[0] =~= c);
        assert(split_cells(c) =~= seq![c]);
    }
}

/// Splitting a line that starts with a space-free cell and a space yields
/// that cell and then the split of the remainder.
pub proof fn lemma_split_prefix(c: Seq<char>, s: Seq<char>)
    requires
        !c.contains(' '),
    ensures
        split_cells(c + seq![' '] + s) == seq![c] + split_cells(s),
    decreases c.len(),
{
    let whole = c + seq![' '] + s;
    if c.len() == 0 {
        assert(whole[0] == ' ');
        assert(whole.drop_first() =~= s);
        assert(c =~= Seq::<char>::empty());
        assert(split_cells(whole) =~= seq![c] + split_cells(s));
    } else {
        assert(whole[0] == c[0]);
        assert(c[0] != ' ');
        assert(!c.drop_first().contains(' ')) by {
            if c.drop_first().contains(' ') {
                let k = choose|k: int|
                    0 <= k < c.drop_first().len() && c.drop_first()[k] == ' ';
                assert(c[k + 1] == ' ');
            }
        }
        assert(whole.drop_first() =~= c.drop_first() + seq![' '] + s);
        lemma_split_prefix(c.drop_first(), s);
        lemma_split_nonempty(s);
        let rest = split_cells(whole.drop_first());
        assert(rest == seq![c.drop_first()] + split_cells(s));
        assert(rest[0] == c.drop_first());
        assert(rest.drop_first() =~= split_cells(s));
        assert(seq![c[0]] + rest[0] =~= c);
        assert(split_cells(whole) =~= seq![c] + split_cells(s));
    }
}

/// Splitting the joined line of a nonempty row of space-free cells gives
/// the row back.
pub proof fn lemma_split_join(row: Seq<Seq<char>>)
    requires
        row.len() >= 1,
        forall|j: int| 0 <= j < row.len() ==> !(#[trigger] row[j]).contains(' '),
    ensures
        split_cells(join_cells(row)) == row,
    decreases row.len(),
{
    if row.len() == 1 {
        lemma_split_no_space(row[0]);
        assert(split_cells(join_cells(row)) =~= row);
    } else {
        lemma_split_join(row.drop_first());
        lemma_split_prefix(row[0], join_cells(row.drop_first()));
        assert(join_cells(row) == row[0] + seq![' '] + join_cells(row.drop_first()));
        assert(split_cells(join_cells(row)) =~= row);
    }
}

/// Saving then loading reproduces a grid exactly: for a grid with at least
/// one row, uniform positive row widths and space-free cell tokens, the
/// rendered artifact lines pass the consistency check and parse back to
/// the very same grid.
pub proof fn lemma_save_load_round_trip(grid: Seq<Seq<Seq<char>>>)
    requires
        grid.len() >= 1,
        grid[0].len() >= 1,
        forall|i: int| 0 <= i < grid.len() ==> #[trigger] grid[i].len() == grid[0].len(),
        forall|i: int, j: int|
            0 <= i < grid.len() && 0 <= j < grid[i].len() ==> !(#[trigger] grid[i][j]).contains(
                ' ',
            ),
    ensures
        rendered_lines(grid).len() == grid.len(),
        lines_consistent(rendered_lines(grid)),
        parsed_grid(rendered_lines(grid)) == grid,
{
    let lines = rendered_lines(grid);
    assert forall|i: int| 0 <= i < lines.len() implies #[trigger] split_cells(lines[i])
        == grid[i] by {
        lemma_split_join(grid[i]);
    }
    assert(parsed_grid(lines) =~= grid);
    assert forall|i: int| 0 <= i < lines.len() implies #[trigger] split_cells(lines[i]).len()
        == split_cells(lines[0]).len() by {
        assert(split_cells(lines[0]) == grid[0]);
    }
}

/// A grid the converter produced survives a save and a load unchanged, and
/// every one of its tokens exports its glyph.
pub proof fn lemma_converted_grid_round_trips(pixels: Seq<u8>, w: int, h: int)
    requires
        w >= 1,
        h >= 1,
        pixels.len() == 3 * w * h,
    ensures
        lines_consistent(rendered_lines(crate::converter::spec_grid(pixels, w, h))),
        parsed_grid(rendered_lines(crate::converter::spec_grid(pixels, w, h)))
            == crate::converter::spec_grid(pixels, w, h),
        crate::printer::grid_exportable(crate::converter::spec_grid(pixels, w, h)),
{
    let grid = crate::converter::spec_grid(pixels, w, h);
    assert forall|i: int, j: int| 0 <= i < grid.len() && 0 <= j < grid[i].len() implies !(
    #[trigger] grid[i][j]).contains(' ') by {
        crate::converter::lemma_cell_chars_storable(
            crate::converter::pixel_channel(pixels, w, j, i, 0),
            crate::converter::pixel_channel(pixels, w, j, i, 1),
            crate::converter::pixel_channel(pixels, w, j, i, 2),
        );
    }
    lemma_save_load_round_trip(grid);
    assert forall|i: int| 0 <= i < grid.len() implies #[trigger] crate::printer::row_exportable(
        grid[i],
    ) by {
        assert forall|j: int| 0 <= j < grid[i].len() implies #[trigger] crate::printer::token_plain(
            grid[i][j],
        ) is Some by {
            crate::converter::lemma_cell_token_plain(
                crate::converter::pixel_channel(pixels, w, j, i, 0),
                crate::converter::pixel_channel(pixels, w, j, i, 1),
                crate::converter::pixel_channel(pixels, w, j, i, 2),
            );
        }
    }
}

/// Builds one artifact line from a row of cell tokens.
fn join_row(row: &Vec<String>) -> (s: String)
    ensures
        s@ == join_cells(row.deep_view()),
{
    let mut out: Vec<char> = Vec::new();
    let mut i: usize = 0;
    while i < row.len()
        invariant
            i <= row@.len(),
            out@ == join_cells(row.deep_view().take(i as int)),
        decreases row@.len() - i,
    {
        let mut cs = chars_of(row[i].as_str());
        if i > 0 {
            out.push(' ');
        }
        out.append(&mut cs);
        proof {
            lemma_join_push(row.deep_view().take(i as int), row.deep_view()[i as int]);
            assert(row.deep_view().take(i as int).push(row.deep_view()[i as int])
                =~= row.deep_view().take(i as int + 1));
            assert(out@ =~= join_cells(row.deep_view().take(i as int + 1)));
        }
        i = i + 1;
    }
    proof {
        assert(row.deep_view().take(row@.len() as int) =~= row.deep_view());
    }
    string_of(&out)
}

/// Joining one more cell appends a space and the cell, except onto an
/// empty row.
proof fn lemma_join_push(row: Seq<Seq<char>>, c: Seq<char>)
    ensures
        row.len() == 0 ==> join_cells(row.push(c)) == c,
        row.len() > 0 ==> join_cells(row.push(c)) == join_cells(row) + seq![' '] + c,
    decreases row.len(),
{
    if row.len() == 0 {
        assert(join_cells(row.push(c)) =~= c);
    } else if row.len() == 1 {
        assert(row.push(c).drop_first() =~= seq![c]);
        assert(row.push(c)[0] == row[0]);
        assert(join_cells(seq![c]) == c);
        assert(join_cells(row.push(c)) =~= join_cells(row) + seq![' '] + c);
    } else {
        lemma_join_push(row.drop_first(), c);
        assert(row.push(c).drop_first() =~= row.drop_first().push(c));
        assert(row.push(c)[0] == row[0]);
        assert(join_cells(row.push(c)) =~= join_cells(row) + seq![' '] + c);
    }
}

/// Re-attaches a partial first cell to the front of already split cells.
pub open spec fn attach_first(c: Seq<char>, parts: Seq<Seq<char>>) -> Seq<Seq<char>> {
    seq![c + parts[0]] + parts.drop_first()
}

/// Splits one artifact line into its cell tokens.
fn split_line(line: &Vec<char>) -> (cells: Vec<String>)
    ensures
        cells.deep_view() == split_cells(line@),
{
    let mut finished: Vec<String> = Vec::new();
    let mut current: Vec<char> = Vec::new();
    let mut i: usize = 0;
    proof {
        lemma_split_nonempty(line@);
        assert(finished.deep_view() + attach_first(current@, split_cells(line@.skip(0)))
            =~= split_cells(line@)) by {
            assert(line@.skip(0) =~= line@);
            assert(Seq::<char>::empty() + split_cells(line@)[0] =~= split_cells(line@)[0]);
            assert(attach_first(current@, split_cells(line@)) =~= split_cells(line@));
        }
    }
    while i < line.len()
        invariant
            i <= line@.len(),
            finished.deep_view() + attach_first(current@, split_cells(line@.skip(i as int)))
                == split_cells(line@),
        decreases line@.len() - i,
    {
        let ghost fin_before = finished.deep_view();
        let ghost cur_before = current@;
        let c = line[i];
        proof {
            assert(line@.skip(i as int)[0] == line@[i as int]);
            assert(line@.skip(i as int).drop_first() =~= line@.skip(i as int + 1));
            lemma_split_nonempty(line@.skip(i as int + 1));
        }
        if c == ' ' {
            let cell = string_of(&current);
            finished.push(cell);
            current = Vec::new();
            proof {
                let rest = split_cells(line@.skip(i as int + 1));
                assert(split_cells(line@.skip(i as int)) =~= seq![Seq::<char>::empty()] + rest);
                assert(attach_first(cur_before, seq![Seq::<char>::empty()] + rest)
                    =~= seq![cur_before] + rest);
                assert(Seq::<char>::empty() + rest[0] =~= rest[0]);
                assert(attach_first(current@, rest) =~= rest);
                assert(finished.deep_view() =~= fin_before.push(cur_before));
                assert(finished.deep_view() + attach_first(current@, rest) =~= split_cells(
                    line@,
                ));
            }
        } else {
            current.push(c);
            proof {
                let rest = split_cells(line@.skip(i as int + 1));
                let piece = split_cells(line@.skip(i as int));
                assert(piece == seq![seq![c] + rest[0]] + rest.drop_first());
                assert(piece[0] == seq![c] + rest[0]);
                assert(piece.drop_first() =~= rest.drop_first());
                assert(cur_before + (seq![c] + rest[0]) =~= cur_before.push(c) + rest[0]);
                assert(attach_first(cur_before, piece) =~= attach_first(cur_before.push(c), rest));
                assert(current@ == cur_before.push(c));
                assert(finished.deep_view() + attach_first(current@, rest) == split_cells(line@));
            }
        }
        i = i + 1;
    }
    let last = string_of(&current);
    finished.push(last);
    proof {
        assert(line@.skip(line@.len() as int) =~= Seq::<char>::empty());
        assert(split_cells(Seq::<char>::empty()) =~= seq![Seq::<char>::empty()]);
        assert(current@ + Seq::<char>::empty() =~= current@);
        assert(attach_first(current@, seq![Seq::<char>::empty()]) =~= seq![current@]);
        assert(finished.deep_view() =~= split_cells(line@));
    }
    finished
}

/// Relies on `std::path::Path::is_dir`: whether the path names an existing
/// directory right now; nothing is promised of the changing file system.
#[verifier::external_body]
fn path_is_dir(path: &str) -> bool {
    std::path::Path::new(path).is_dir()
}

/// Relies on `std::time::SystemTime::now`, `duration_since` and
/// `Duration::as_secs`: the wall clock's seconds since the Unix epoch, zero
/// for a clock before the epoch; nothing is promised of the clock.
#[verifier::external_body]
fn unix_seconds() -> u64 {
    match std::time::SystemTime::now().duration_since(std::time::UNIX_EPOCH) {
        Ok(d) => d.as_secs(),
        Err(_) => 0,
    }
}

/// The file name an artifact is stored under.
pub open spec fn artifact_file_name(stamp: int, name: Seq<char>) -> Seq<char> {
    dec_chars_wide(stamp) + seq!['_'] + name + seq!['.', 'c', 'w', 'i']
}

/// Whether a file name carries the artifact extension: it ends in `.cwi`
/// with at least one character before the dot — exactly the names whose
/// path extension is `cwi`, the sole discriminator of a directory scan.
pub open spec fn spec_artifact_file_name(name: Seq<char>) -> bool {
    &&& name.len() >= 5
    &&& name.subrange(name.len() - 4, name.len() as int) == seq!['.', 'c', 'w', 'i']
}

/// Decides whether a directory entry's file name is an artifact.
pub fn is_artifact_file_name(name: &str) -> (r: bool)
    ensures
        r == spec_artifact_file_name(name@),
{
    let v = chars_of(name);
    let n = v.len();
    if n < 5 {
        return false;
    }
    let r = v[n - 4] == '.' && v[n - 3] == 'c' && v[n - 2] == 'w' && v[n - 1] == 'i';
    proof {
        let tail = name@.subrange(n as int - 4, n as int);
        if r {
            assert(tail =~= seq!['.', 'c', 'w', 'i']);
        }
        if tail == seq!['.', 'c', 'w', 'i'] {
            assert(name@[n as int - 4] == tail[0]);
            assert(name@[n as int - 3] == tail[1]);
            assert(name@[n as int - 2] == tail[2]);
            assert(name@[n as int - 1] == tail[3]);
        }
    }
    r
}

/// The save side of the codec, bound to a target directory.
pub struct ImageStorage {
    save_path: String,
}

impl ImageStorage {
    /// The directory artifacts are saved under.
    pub closed spec fn path(&self) -> Seq<char> {
        self.save_path@
    }

    /// Accepts the directory only if it exists right now.
    pub fn new(save_path: String) -> (r: Result<Self, StorageError>)
        ensures
            r matches Ok(s) ==> s.path() == save_path@,
            r matches Err(e) ==> e is SavePathError,
    {
        if !path_is_dir(save_path.as_str()) {
            return Err(StorageError::SavePathError);
        }
        Ok(Self { save_path })
    }

    /// The configured directory, for the caller that writes the files.
    pub fn save_path(&self) -> (p: &String)
        ensures
            p@ == self.path(),
    {
        &self.save_path
    }

    /// Builds the artifact file name for a given timestamp.
    pub fn get_image_name(image_name: &str, stamp: u64) -> (s: String)
        ensures
            s@ == artifact_file_name(stamp as int, image_name@),
    {
        let mut v: Vec<char> = Vec::new();
        push_u64_decimal(&mut v, stamp);
        v.push('_');
        let mut name_chars = chars_of(image_name);
        v.append(&mut name_chars);
        v.push('.');
        v.push('c');
        v.push('w');
        v.push('i');
        let s = string_of(&v);
        proof {
            assert(v@ =~= artifact_file_name(stamp as int, image_name@));
        }
        s
    }

    /// Builds an artifact file name stamped with the current wall-clock
    /// second.
    pub fn fresh_image_name(image_name: &str) -> (s: String)
        ensures
            exists|stamp: int|
                0 <= stamp && s@ == #[trigger] artifact_file_name(stamp, image_name@),
    {
        let stamp = unix_seconds();
        Self::get_image_name(image_name, stamp)
    }

    /// Renders a grid as its artifact lines, one per row.
    pub fn artifact_lines(image_array: &Vec<Vec<String>>) -> (lines: Vec<String>)
        ensures
            lines.deep_view() == rendered_lines(image_array.deep_view()),
    {
        let mut lines: Vec<String> = Vec::new();
        let mut i: usize = 0;
        while i < image_array.len()
            invariant
                i <= image_array@.len(),
                lines@.len() == i,
                forall|k: int|
                    0 <= k < i ==> #[trigger] lines@[k]@ == join_cells(
                        image_array.deep_view()[k],
                    ),
            decreases image_array@.len() - i,
        {
            let line = join_row(&image_array[i]);
            lines.push(line);
            i = i + 1;
        }
        proof {
            assert(lines.deep_view() =~= rendered_lines(image_array.deep_view()));
        }
        lines
    }

    /// Parses an artifact's lines into a named grid. The first line fixes
    /// the expected cell count; a file without lines, or with any line of a
    /// different cell count, is corrupt on its own and reported under its
    /// name.
    pub fn load_image_from_lines(image_name: String, lines: &Vec<String>) -> (r: Result<
        PrinterImageData,
        StorageError,
    >)
        ensures
            r is Ok <==> lines@.len() > 0 && lines_consistent(lines.deep_view()),
            r matches Ok(d) ==> d.name() == image_name@ && d.grid() == parsed_grid(
                lines.deep_view(),
            ),
            r matches Err(e) ==> e matches StorageError::LoadError(s) && s@ == image_name@,
    {
        if lines.len() == 0 {
            return Err(StorageError::LoadError(image_name));
        }
        let first_chars = chars_of(lines[0].as_str());
        let first_row = split_line(&first_chars);
        let expected_length: usize = first_row.len();
        proof {
            assert(lines.deep_view()[0] == lines@[0]@);
            assert(first_row@.len() == first_row.deep_view().len());
        }
        let mut result: Vec<Vec<String>> = Vec::new();
        result.push(first_row);
        proof {
            assert(result.deep_view()[0] == split_cells(lines.deep_view()[0]));
        }
        let mut i: usize = 1;
        while i < lines.len()
            invariant
                1 <= i <= lines@.len(),
                expected_length == split_cells(lines.deep_view()[0]).len(),
                result@.len() == i,
                forall|k: int|
                    0 <= k < i ==> #[trigger] result.deep_view()[k] == split_cells(
                        lines.deep_view()[k],
                    ),
                forall|k: int|
                    0 <= k < i ==> #[trigger] split_cells(lines.deep_view()[k]).len()
                        == expected_length,
            decreases lines@.len() - i,
        {
            let line_chars = chars_of(lines[i].as_str());
            let current_row = split_line(&line_chars);
            proof {
                assert(lines.deep_view()[i as int] == lines@[i as int]@);
                assert(current_row@.len() == current_row.deep_view().len());
            }
            if current_row.len() != expected_length {
                proof {
                    assert(split_cells(lines.deep_view()[i as int]).len() != split_cells(
                        lines.deep_view()[0],
                    ).len());
                    assert(!lines_consistent(lines.deep_view()));
                }
                return Err(StorageError::LoadError(image_name));
            }
            let ghost prev_view = result@;
            let ghost prev_dv = result.deep_view();
            result.push(current_row);
            proof {
                assert forall|k: int| 0 <= k < i + 1 implies #[trigger] result.deep_view()[k]
                    == split_cells(lines.deep_view()[k]) by {
                    if k < i {
                        assert(result@[k] == prev_view[k]);
                        assert(prev_dv[k] == split_cells(lines.deep_view()[k]));
                    } else {
                        assert(result@[k] == current_row);
                    }
                }
            }
            i = i + 1;
        }
        let data = PrinterImageData::new(image_name, result);
        proof {
            assert(result.deep_view() =~= parsed_grid(lines.deep_view()));
        }
        Ok(data)
    }
}

/// A single-pass upstream source of per-file load results. A pull that
/// produces an item consumes it: the remaining supply shrinks, so a
/// consumer that keeps pulling eventually sees `None`.
pub trait ArtifactResultSource {
    /// How many files the source can still report on: the termination
    /// measure of every consumer that keeps pulling. A verified
    /// implementation overrides it and proves the promise below; an
    /// implementation outside the verifier keeps the default and its
    /// promise goes unchecked.
    open spec fn remaining(&self) -> nat {
        0
    }

    fn next_artifact(&mut self) -> (r: Option<Result<PrinterImageData, StorageError>>)
        ensures
            r is Some ==> final(self).remaining() < old(self).remaining(),
    ;
}

/// The filtering view of a load: corrupt artifacts are logged and dropped,
/// only successfully parsed images come through.
pub struct ValidImageLoadIterator<S: ArtifactResultSource> {
    iterator: S,
}

impl<S: ArtifactResultSource> ValidImageLoadIterator<S> {
    /// The wrapped source of per-file load results.
    pub closed spec fn source(&self) -> S {
        self.iterator
    }

    pub fn new(iterator: S) -> (it: Self)
        ensures
            it.source() == iterator,
    {
        Self { iterator }
    }

    /// Pulls load results until one is a success or the source runs dry,
    /// logging every failure on the way. A yielded image was consumed from
    /// the wrapped source: its remaining supply shrank, so repeated pulls
    /// drain the source rather than replaying or inventing items.
    pub fn next_valid(&mut self) -> (r: Option<PrinterImageData>)
        ensures
            r is Some ==> final(self).source().remaining() < old(self).source().remaining(),
    {
        loop
            invariant
                self.iterator.remaining() <= old(self).iterator.remaining(),
            decreases self.iterator.remaining(),
        {
            match self.iterator.next_artifact() {
                Some(outcome) => {
                    match outcome {
                        Ok(image) => {
                            return Some(image);
                        },
                        Err(err) => {
                            Logger::log_error(err.message().as_str());
                        },
                    }
                },
                None => {
                    return None;
                },
            }
        }
    }
}

impl<S: ArtifactResultSource> ImageDataSource for ValidImageLoadIterator<S> {
    fn next_image(&mut self) -> Option<PrinterImageData> {
        self.next_valid()
    }
}

} // verus!
