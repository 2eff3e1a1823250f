use biblia::reference::{find_reference, parse_embedded, parse_found, parse_reference, ParseError};

#[test]
fn single_verse_reference() {
    let r = parse_reference("Mt:10:20").unwrap();
    assert_eq!(r.book, "Mt");
    assert_eq!(r.chapter, 10);
    assert_eq!((r.start, r.end), (20, Some(20)));
}

#[test]
fn verse_range_reference() {
    let r = parse_reference("Lc:20:2-3").unwrap();
    assert_eq!((r.book.as_str(), r.chapter, r.start, r.end), ("Lc", 20, 2, Some(3)));
}

#[test]
fn verse_range_reference_last_book() {
    let r = parse_reference("Ap:1:2-4").unwrap();
    assert_eq!((r.book.as_str(), r.chapter, r.start, r.end), ("Ap", 1, 2, Some(4)));
}

#[test]
fn chapter_only_runs_to_end() {
    let r = parse_reference("Jn:3").unwrap();
    assert_eq!((r.book.as_str(), r.chapter, r.start, r.end), ("Jn", 3, 1, None));
}

#[test]
fn book_only_is_rejected() {
    assert_eq!(parse_reference("Jn").unwrap_err(), ParseError::MissingChapter);
}

#[test]
fn four_segments_are_rejected() {
    assert_eq!(parse_reference("Jn:3:2:4").unwrap_err(), ParseError::TooManySegments);
}

#[test]
fn bad_numbers_are_rejected() {
    assert_eq!(parse_reference("Jn:x").unwrap_err(), ParseError::InvalidChapter);
    assert_eq!(parse_reference("Jn:").unwrap_err(), ParseError::InvalidChapter);
    assert_eq!(parse_reference("Jn:3:a").unwrap_err(), ParseError::InvalidVerse);
    assert_eq!(parse_reference("Jn:3:-4").unwrap_err(), ParseError::InvalidStartVerse);
    assert_eq!(parse_reference("Jn:3:2-").unwrap_err(), ParseError::InvalidEndVerse);
    assert_eq!(parse_reference("Jn:3:2-3-4").unwrap_err(), ParseError::InvalidEndVerse);
    assert_eq!(parse_reference("Jn:x:1:2").unwrap_err(), ParseError::InvalidChapter);
}

#[test]
fn numbers_follow_usize_parsing() {
    let r = parse_reference("Jn:+3:007").unwrap();
    assert_eq!((r.chapter, r.start, r.end), (3, 7, Some(7)));
    assert_eq!(parse_reference("Jn:99999999999999999999999").unwrap_err(), ParseError::InvalidChapter);
    let big = format!("Jn:{}", usize::MAX);
    assert_eq!(parse_reference(&big).unwrap().chapter, usize::MAX);
}

#[test]
fn descending_range_is_kept() {
    let r = parse_reference("Lc:20:5-2").unwrap();
    assert_eq!((r.start, r.end), (5, Some(2)));
}

#[test]
fn embedded_reference_is_found() {
    assert_eq!(find_reference("go read Mt:4:4 today").as_deref(), Some("Mt:4:4"));
    let r = parse_embedded("go read Mt:4:4 today").unwrap();
    assert_eq!((r.book.as_str(), r.chapter, r.start, r.end), ("Mt", 4, 4, Some(4)));
}

#[test]
fn embedded_range_is_found() {
    let r = parse_embedded("Citeste Ps:22:1-6, apoi roaga-te").unwrap();
    assert_eq!((r.book.as_str(), r.chapter, r.start, r.end), ("Ps", 22, 1, Some(6)));
}

#[test]
fn prose_without_reference() {
    assert_eq!(find_reference("no reference here, only Mt:4"), None);
    assert_eq!(parse_embedded("nothing at all").unwrap_err(), ParseError::NoReferenceFound);
    assert_eq!(parse_found(None).unwrap_err(), ParseError::NoReferenceFound);
    assert_eq!(parse_found(Some("Jn:1:1")).unwrap().book, "Jn");
}
