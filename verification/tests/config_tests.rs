use light_writer::config::{
    generate_isbn, isbn_of_digest, parse_u32_or_zero, populate_book_metadata, split_commas,
    BookConfig,
};
use sha2::Digest;

#[test]
fn split_commas_splits_and_keeps_empty_fields() {
    assert_eq!(split_commas("a,b,c"), vec!["a", "b", "c"]);
    assert_eq!(split_commas(""), vec![""]);
    assert_eq!(split_commas("a,,b"), vec!["a", "", "b"]);
    assert_eq!(split_commas("a,"), vec!["a", ""]);
    assert_eq!(split_commas("solo"), vec!["solo"]);
}

#[test]
fn parse_u32_or_zero_parses_numerals_and_defaults_to_zero() {
    assert_eq!(parse_u32_or_zero("123"), 123);
    assert_eq!(parse_u32_or_zero("0"), 0);
    assert_eq!(parse_u32_or_zero("+7"), 7);
    assert_eq!(parse_u32_or_zero("4294967295"), u32::MAX);
    assert_eq!(parse_u32_or_zero("4294967296"), 0);
    assert_eq!(parse_u32_or_zero("99999999999999999999"), 0);
    assert_eq!(parse_u32_or_zero(""), 0);
    assert_eq!(parse_u32_or_zero("abc"), 0);
    assert_eq!(parse_u32_or_zero("12a"), 0);
    assert_eq!(parse_u32_or_zero("-5"), 0);
    assert_eq!(parse_u32_or_zero("++1"), 0);
    assert_eq!(parse_u32_or_zero("+"), 0);
}

#[test]
fn isbn_of_digest_is_hex_of_the_first_13_bytes() {
    let digest = sha2::Sha256::digest(b"a fixed input");
    let expected = hex::encode(&digest[..13]);
    assert_eq!(isbn_of_digest(&digest.to_vec()), expected);
}

#[test]
fn generate_isbn_is_26_lowercase_hex_digits_of_a_real_digest() {
    let title = "abcdefghijklmnopqrstuvwxyz";
    let isbn = generate_isbn(title, "someone");
    assert_eq!(isbn.len(), 26);
    assert!(isbn.chars().all(|c| c.is_ascii_hexdigit() && !c.is_ascii_uppercase()));
    // A digest is not the input itself: the identifier differs from the hex
    // of the first 13 bytes of the title.
    assert_ne!(isbn, hex::encode(&title.as_bytes()[..13]));
}

#[test]
fn populate_applies_documented_defaults() {
    let book = populate_book_metadata(BookConfig::empty());
    assert_eq!(book.title, "");
    assert_eq!(book.authors, "");
    assert_eq!(book.production, "The Digital Archive");
    assert_eq!(book.publication_date, "--/--/----");
    assert_eq!(book.format, "Blockchain");
    assert_eq!(book.page_index, 0);
    assert_eq!(book.page_count, 0);
    assert_eq!(book.genres, vec![""]);
    assert_eq!(book.tags, vec![""]);
    assert_eq!(book.isbn.len(), 26);
    assert!(book.content.is_empty());
    assert_eq!(book.total_chapters, 0);
}

#[test]
fn populate_uses_the_supplied_values() {
    let mut cfg = BookConfig::empty();
    cfg.title = Some("A Title".to_string());
    cfg.authors = Some("An Author".to_string());
    cfg.production = Some("Indie Press".to_string());
    cfg.page_index = Some("42".to_string());
    cfg.page_count = Some("not a number".to_string());
    cfg.genres = Some("sci-fi,essay".to_string());
    cfg.format = Some("Paper".to_string());
    let book = populate_book_metadata(cfg);
    assert_eq!(book.title, "A Title");
    assert_eq!(book.authors, "An Author");
    assert_eq!(book.production, "Indie Press");
    assert_eq!(book.page_index, 42);
    assert_eq!(book.page_count, 0);
    assert_eq!(book.genres, vec!["sci-fi", "essay"]);
    assert_eq!(book.format, "Paper");
    assert_eq!(book.total_chapters, 0);
}
