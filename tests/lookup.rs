use biblia::corpus::{get_verses, Book, Chapter, Corpus, Verse};
use biblia::resolver::{find_book_name, resolve_book};

fn verse(n: u64, t: &str) -> Verse {
    Verse { number: Some(n), text: Some(t.to_string()) }
}

fn sample() -> Corpus {
    let ioan = Book {
        name: "Ioan".to_string(),
        alternatives: vec!["In".to_string(), "John".to_string()],
        chapters: vec![Chapter {
            number: 1,
            verses: vec![verse(1, "unu"), verse(2, "doi"), verse(3, "trei"), verse(4, "patru"), verse(5, "cinci")],
        }],
    };
    let matei = Book {
        name: "Matei".to_string(),
        alternatives: vec!["Mt".to_string()],
        chapters: vec![
            Chapter { number: 4, verses: vec![verse(1, "a"), verse(2, "b"), verse(3, "c"), verse(4, "d")] },
            Chapter {
                number: 5,
                verses: vec![verse(1, "x"), Verse { number: None, text: Some("y".to_string()) }, verse(3, "z")],
            },
        ],
    };
    let psalmi = Book { name: "Psalmi".to_string(), alternatives: vec![], chapters: vec![] };
    Corpus { books: vec![ioan, matei, psalmi] }
}

#[test]
fn canonical_names_resolve_to_themselves() {
    let c = sample();
    for b in &c.books {
        assert_eq!(find_book_name(&c, &b.name), (b.name.clone(), false));
    }
}

#[test]
fn alternative_names_resolve_to_their_book() {
    let c = sample();
    assert_eq!(find_book_name(&c, "Mt").0, "Matei");
    assert_eq!(find_book_name(&c, "John").0, "Ioan");
    assert_eq!(find_book_name(&c, "In").0, "Ioan");
    assert_eq!(resolve_book(&c, "Mt"), Some(1));
}

#[test]
fn fuzzy_names_resolve() {
    let c = sample();
    assert_eq!(find_book_name(&c, "Mateii").0, "Matei");
    assert_eq!(find_book_name(&c, "Psalm").0, "Psalmi");
}

#[test]
fn empty_token_falls_back_to_first_book() {
    let c = sample();
    assert_eq!(resolve_book(&c, ""), None);
    assert_eq!(find_book_name(&c, ""), ("Ioan".to_string(), true));
}

#[test]
fn ties_keep_the_first_candidate() {
    let a = Book { name: "Ab".to_string(), alternatives: vec![], chapters: vec![] };
    let b = Book { name: "Ab".to_string(), alternatives: vec![], chapters: vec![] };
    let c = Corpus { books: vec![a, b] };
    assert_eq!(resolve_book(&c, "Ab"), Some(0));
}

#[test]
fn open_range_runs_to_last_verse() {
    let c = sample();
    let v = get_verses(&c, "Ioan", 1, 3, None).unwrap();
    assert_eq!(v, vec!["1:3 trei", "1:4 patru", "1:5 cinci"]);
}

#[test]
fn closed_range_and_single_verse() {
    let c = sample();
    assert_eq!(get_verses(&c, "Matei", 4, 2, Some(3)).unwrap(), vec!["4:2 b", "4:3 c"]);
    assert_eq!(get_verses(&c, "Matei", 4, 4, Some(4)).unwrap(), vec!["4:4 d"]);
    assert_eq!(get_verses(&c, "Matei", 4, 3, Some(99)).unwrap(), vec!["4:3 c", "4:4 d"]);
}

#[test]
fn empty_selections() {
    let c = sample();
    assert!(get_verses(&c, "Matei", 4, 9, None).unwrap().is_empty());
    assert!(get_verses(&c, "Matei", 4, 3, Some(2)).unwrap().is_empty());
}

#[test]
fn incomplete_verse_records_are_skipped() {
    let c = sample();
    assert_eq!(get_verses(&c, "Matei", 5, 1, None).unwrap(), vec!["5:1 x", "5:3 z"]);
}

#[test]
fn missing_chapter_or_book_is_not_found() {
    let c = sample();
    assert_eq!(get_verses(&c, "Ioan", 7, 1, None), None);
    assert_eq!(get_verses(&c, "Luca", 1, 1, None), None);
    assert_eq!(get_verses(&c, "Psalmi", 1, 1, None), None);
}

#[test]
fn large_numbers_render_in_decimal() {
    let ch = Chapter { number: 150, verses: vec![verse(1, "a")] };
    let b = Book { name: "Ps".to_string(), alternatives: vec![], chapters: vec![ch] };
    let c = Corpus { books: vec![b] };
    assert_eq!(get_verses(&c, "Ps", 150, 1, None).unwrap(), vec!["150:1 a"]);
}
