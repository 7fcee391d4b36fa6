use nil::base::FileId;
use nil::base::FilePos;
use nil::base::FileRange;
use nil::base::InFile;
use nil::base::SourceRootId;
use nil::text::TextRange;
use nil::text::TextSize;

#[test]
fn ids_compare_by_number() {
    assert_eq!(FileId(3), FileId(3));
    assert_ne!(FileId(3), FileId(4));
    assert_eq!(SourceRootId(0), SourceRootId(0));
}

#[test]
fn in_file_map_keeps_the_file() {
    let x = InFile::new(FileId(7), 20u32);
    let y = x.map(|v| v + 1);
    assert_eq!(y.file_id, FileId(7));
    assert_eq!(y.value, 21);
    let z = y.map(|v| v.to_string());
    assert_eq!(z, InFile::new(FileId(7), "21".to_owned()));
}

#[test]
fn positions_and_ranges_hold_what_they_are_given() {
    let pos = FilePos::new(FileId(1), TextSize::from(4));
    assert_eq!(pos.file_id, FileId(1));
    assert_eq!(u32::from(pos.pos), 4);
    let range = TextRange::new(TextSize::new(4), TextSize::new(9));
    let frange = FileRange::new(FileId(1), range);
    assert_eq!(frange.file_id, FileId(1));
    assert_eq!(frange.range, range);
}

#[test]
fn text_range_measures() {
    let range = TextRange::new(TextSize::new(4), TextSize::new(9));
    assert_eq!(range.start(), TextSize::new(4));
    assert_eq!(range.end(), TextSize::new(9));
    assert_eq!(range.len(), TextSize::new(5));
    assert!(!range.is_empty());
    let point = TextRange::empty(TextSize::new(3));
    assert!(point.is_empty());
    assert_eq!(point, TextRange::new(TextSize::new(3), TextSize::new(3)));
    assert_eq!(point.len(), TextSize::new(0));
}

#[test]
fn text_range_is_written_as_the_outside_crate_writes_it() {
    for (start, end) in [(0u32, 0u32), (4, 5), (9, 10), (10, 123), (0, u32::MAX), (99, 100)] {
        let ours = TextRange::new(TextSize::new(start), TextSize::new(end)).to_text();
        let theirs = format!("{:?}", text_size::TextRange::new(start.into(), end.into()));
        assert_eq!(ours, theirs);
        assert_eq!(ours, format!("{}..{}", start, end));
    }
    assert_eq!(TextRange::new(TextSize::new(4), TextSize::new(5)).to_text(), "4..5");
}
