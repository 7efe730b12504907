use colourful_words::image_storage::ArtifactResultSource;
use colourful_words::image_storage::ImageStorage;
use colourful_words::image_storage::StorageError;
use colourful_words::image_storage::ValidImageLoadIterator;
use colourful_words::printer::PrinterImageData;

fn lines(rows: &[&str]) -> Vec<String> {
    rows.iter().map(|r| r.to_string()).collect()
}

#[test]
fn image_name_carries_stamp_name_and_extension() {
    assert_eq!(ImageStorage::get_image_name("pic", 123), "123_pic.cwi");
    assert_eq!(ImageStorage::get_image_name("a_b", 0), "0_a_b.cwi");
}

#[test]
fn fresh_image_name_has_extension() {
    let name = ImageStorage::fresh_image_name("pic");
    assert!(name.ends_with("_pic.cwi"));
}

#[test]
fn storage_accepts_existing_directory() {
    let storage = ImageStorage::new(".".to_string()).unwrap();
    assert_eq!(storage.save_path(), ".");
}

#[test]
fn storage_rejects_missing_directory() {
    let r = ImageStorage::new("surely/not/a/directory/here".to_string());
    assert!(matches!(r, Err(StorageError::SavePathError)));
}

#[test]
fn artifact_lines_join_rows_with_spaces() {
    let grid = vec![
        vec!["a".to_string(), "b".to_string()],
        vec!["c".to_string(), "d".to_string()],
    ];
    let rendered = ImageStorage::artifact_lines(&grid);
    assert_eq!(rendered, lines(&["a b", "c d"]));
}

#[test]
fn save_then_load_round_trip() {
    let grid = vec![
        vec!["\u{1b}[38;2;0;0;0m@\u{1b}[0m".to_string(), "x".to_string()],
        vec!["y".to_string(), "z".to_string()],
    ];
    let rendered = ImageStorage::artifact_lines(&grid);
    let loaded = ImageStorage::load_image_from_lines("back".to_string(), &rendered).unwrap();
    let (name, parsed) = loaded.into_parts();
    assert_eq!(name, "back");
    assert_eq!(parsed, grid);
}

#[test]
fn load_accepts_consistent_lines() {
    let data = ImageStorage::load_image_from_lines("ok".to_string(), &lines(&["a b", "c d"]));
    let (_, grid) = data.unwrap().into_parts();
    assert_eq!(
        grid,
        vec![
            vec!["a".to_string(), "b".to_string()],
            vec!["c".to_string(), "d".to_string()],
        ]
    );
}

#[test]
fn load_rejects_width_mismatch() {
    let r = ImageStorage::load_image_from_lines("bad".to_string(), &lines(&["a b", "c"]));
    match r {
        Err(StorageError::LoadError(name)) => assert_eq!(name, "bad"),
        _ => panic!("expected a load error"),
    }
}

#[test]
fn load_rejects_empty_file() {
    let r = ImageStorage::load_image_from_lines("empty".to_string(), &lines(&[]));
    assert!(matches!(r, Err(StorageError::LoadError(_))));
}

#[test]
fn load_keeps_empty_cells() {
    let data = ImageStorage::load_image_from_lines("gaps".to_string(), &lines(&["a  b"]));
    let (_, grid) = data.unwrap().into_parts();
    assert_eq!(
        grid,
        vec![vec!["a".to_string(), "".to_string(), "b".to_string()]]
    );
}

#[test]
fn artifact_file_names_need_stem_and_extension() {
    assert!(colourful_words::image_storage::is_artifact_file_name("1_pic.cwi"));
    assert!(colourful_words::image_storage::is_artifact_file_name("a.cwi"));
    assert!(!colourful_words::image_storage::is_artifact_file_name(".cwi"));
    assert!(!colourful_words::image_storage::is_artifact_file_name("cwi"));
    assert!(!colourful_words::image_storage::is_artifact_file_name("pic.txt"));
    assert!(!colourful_words::image_storage::is_artifact_file_name("piccwi"));
}

#[test]
fn storage_error_messages() {
    assert_eq!(
        StorageError::SavePathError.message(),
        "Given save path is not a valid directory"
    );
    assert_eq!(
        StorageError::LoadError("p".to_string()).message(),
        "Image p couldn't be loaded"
    );
}

struct ResultFeed {
    files: Vec<(String, Vec<String>)>,
    next: usize,
}

impl ArtifactResultSource for ResultFeed {
    fn next_artifact(&mut self) -> Option<Result<PrinterImageData, StorageError>> {
        if self.next < self.files.len() {
            let (name, file_lines) = self.files[self.next].clone();
            self.next += 1;
            Some(ImageStorage::load_image_from_lines(name, &file_lines))
        } else {
            None
        }
    }
}

#[test]
fn one_good_and_one_corrupt_artifact() {
    // The error-surfacing mode: parsing each file on its own yields one
    // success and one per-file failure.
    let good = ImageStorage::load_image_from_lines("one".to_string(), &lines(&["a b", "c d"]));
    let bad = ImageStorage::load_image_from_lines("two".to_string(), &lines(&["a b", "c"]));
    assert!(good.is_ok());
    assert!(matches!(bad, Err(StorageError::LoadError(_))));

    // The filtering mode over the same two files yields exactly one image.
    let feed = ResultFeed {
        files: vec![
            ("one".to_string(), lines(&["a b", "c d"])),
            ("two".to_string(), lines(&["a b", "c"])),
        ],
        next: 0,
    };
    let mut valid = ValidImageLoadIterator::new(feed);
    let first = valid.next_valid().unwrap();
    let (name, _) = first.into_parts();
    assert_eq!(name, "one");
    assert!(valid.next_valid().is_none());
}
