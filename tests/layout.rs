use biblia::corpus::{Book, Chapter, Corpus, Verse};
use biblia::engine::{try_print_verses, Resolution};
use biblia::format::{wrap, FORMAT_ERROR};
use biblia::reference::ParseError;

#[test]
fn short_reference_is_padded_to_six() {
    assert_eq!(wrap("3:1 In inceput", 80), "3:1    In inceput");
}

#[test]
fn long_reference_gets_no_padding() {
    assert_eq!(wrap("10:20:30 text", 80), "10:20:30 text");
    assert_eq!(wrap("100:10 text", 80), "100:10 text");
}

#[test]
fn body_wraps_under_its_column() {
    assert_eq!(wrap("1:1 alpha beta", 11), "1:1    alpha\n       beta");
}

#[test]
fn body_lines_rejoin_to_the_same_words() {
    let out = wrap("12:3 unu doi trei patru cinci sase sapte opt noua zece", 20);
    let mut lines = out.lines();
    let first = lines.next().unwrap();
    assert_eq!(&first[..7], "12:3   ");
    let mut words: Vec<&str> = first[7..].split_whitespace().collect();
    for l in lines {
        assert!(l.starts_with("       "));
        assert!(l.len() <= 7 + (20 - 6));
        words.extend(l[7..].split_whitespace());
    }
    assert_eq!(words.join(" "), "unu doi trei patru cinci sase sapte opt noua zece");
}

#[test]
fn line_without_space_is_a_format_error() {
    assert_eq!(wrap("3:16", 80), FORMAT_ERROR);
}

#[test]
fn unbounded_width_keeps_one_line() {
    let body = "cuvant ".repeat(40);
    let out = wrap(&format!("1:1 {}", body.trim_end()), usize::MAX);
    assert!(!out.contains('\n'));
}

fn corpus() -> Corpus {
    let vs = (1..=5).map(|n| Verse { number: Some(n), text: Some(format!("v{}", n)) }).collect();
    let matei = Book {
        name: "Matei".to_string(),
        alternatives: vec!["Mt".to_string()],
        chapters: vec![Chapter { number: 4, verses: vs }],
    };
    Corpus { books: vec![matei] }
}

#[test]
fn strict_reference_resolves_to_lines() {
    match try_print_verses(&corpus(), "Mt:4:4", 80, false, true) {
        Resolution::Verses { book, guessed, lines } => {
            assert_eq!(book, "Matei");
            assert!(!guessed);
            assert_eq!(lines, vec!["4:4    v4"]);
        }
        other => panic!("unexpected {:?}", other),
    }
}

#[test]
fn prose_reference_resolves_to_lines() {
    match try_print_verses(&corpus(), "go read Mt:4:4-5 today", 80, true, true) {
        Resolution::Verses { lines, .. } => assert_eq!(lines, vec!["4:4    v4", "4:5    v5"]),
        other => panic!("unexpected {:?}", other),
    }
}

#[test]
fn outcomes_without_verses() {
    let c = corpus();
    assert!(matches!(try_print_verses(&c, "Mt:9", 80, false, true), Resolution::NoVerses { .. }));
    assert!(matches!(try_print_verses(&c, ":4", 80, false, true), Resolution::NoBook));
    assert!(matches!(try_print_verses(&c, "Mt", 80, false, true), Resolution::Invalid(ParseError::MissingChapter)));
    assert!(matches!(
        try_print_verses(&c, "nothing here", 80, true, true),
        Resolution::Invalid(ParseError::NoReferenceFound)
    ));
}

#[test]
fn fallback_policy_is_explicit() {
    let c = corpus();
    // "#" shares no character with any name, so nothing matches at all.
    match try_print_verses(&c, "#:4:1", 80, false, true) {
        Resolution::Verses { book, guessed, lines } => {
            assert_eq!(book, "Matei");
            assert!(guessed);
            assert_eq!(lines, vec!["4:1    v1"]);
        }
        other => panic!("unexpected {:?}", other),
    }
    assert!(matches!(try_print_verses(&c, "#:4:1", 80, false, false), Resolution::UnknownBook));
}
