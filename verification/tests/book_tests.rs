use light_writer::book::{merge, BookMetadata, Chapter, Page};
use light_writer::segment::segment_text;

fn chapter(name: &str, text: &str, number: usize) -> Chapter {
    Chapter {
        chapter: name.to_string(),
        pages: vec![Page { page_number: number, content: text.to_string() }],
        notes: String::new(),
        quotes: Vec::new(),
    }
}

#[test]
fn new_record_is_empty() {
    let b = BookMetadata::new();
    assert_eq!(b.title, "");
    assert_eq!(b.authors, "");
    assert_eq!(b.production, "");
    assert_eq!(b.publication_date, "");
    assert_eq!(b.format, "");
    assert_eq!(b.page_index, 0);
    assert_eq!(b.page_count, 0);
    assert!(b.genres.is_empty());
    assert!(b.tags.is_empty());
    assert!(b.content.is_empty());
    assert_eq!(b.total_chapters, 0);
}

#[test]
fn merge_into_empty_record() {
    let chapters = vec![chapter("One", "first.", 1), chapter("Two", "second.", 2)];
    let book = merge(None, chapters);
    assert_eq!(book.content.len(), 2);
    assert_eq!(book.content[0].chapter, "One");
    assert_eq!(book.content[1].chapter, "Two");
    assert_eq!(book.total_chapters, 2);
}

#[test]
fn merge_skips_existing_chapter_and_keeps_its_content() {
    let mut existing = BookMetadata::new();
    existing.content.push(chapter("Intro", "the original text.", 1));
    existing.total_chapters = 1;
    let book = merge(Some(existing), vec![chapter("Intro", "replacement text.", 9)]);
    assert_eq!(book.total_chapters, 1);
    assert_eq!(book.content.len(), 1);
    assert_eq!(book.content[0].pages[0].content, "the original text.");
    assert_eq!(book.content[0].pages[0].page_number, 1);
}

#[test]
fn merge_is_idempotent_over_segmented_text() {
    let input = "[ch-Alpha]First chapter text.[ch-Beta]Second chapter text.";
    let (first, _) = segment_text(input, 1);
    let book1 = merge(None, first);
    let count = book1.total_chapters;
    let pages0: Vec<String> =
        book1.content[0].pages.iter().map(|p| p.content.clone()).collect();
    let (second, _) = segment_text(input, 1);
    let book2 = merge(Some(book1), second);
    assert_eq!(book2.total_chapters, count);
    assert_eq!(book2.content.len(), 2);
    let pages0_after: Vec<String> =
        book2.content[0].pages.iter().map(|p| p.content.clone()).collect();
    assert_eq!(pages0, pages0_after);
}

#[test]
fn merge_adds_only_new_names() {
    let mut existing = BookMetadata::new();
    existing.content.push(chapter("A", "a.", 1));
    existing.total_chapters = 1;
    let book = merge(Some(existing), vec![chapter("A", "dup.", 5), chapter("B", "b.", 6)]);
    assert_eq!(book.total_chapters, 2);
    assert_eq!(book.content[0].chapter, "A");
    assert_eq!(book.content[0].pages[0].content, "a.");
    assert_eq!(book.content[1].chapter, "B");
}

#[test]
fn merge_chapter_names_are_case_sensitive() {
    let mut existing = BookMetadata::new();
    existing.content.push(chapter("intro", "lower.", 1));
    existing.total_chapters = 1;
    let book = merge(Some(existing), vec![chapter("Intro", "upper.", 2)]);
    assert_eq!(book.total_chapters, 2);
}

#[test]
fn merge_preserves_metadata_fields() {
    let mut existing = BookMetadata::new();
    existing.title = "A Title".to_string();
    existing.authors = "An Author".to_string();
    existing.genres = vec!["g1".to_string(), "g2".to_string()];
    let book = merge(Some(existing), vec![chapter("C", "c.", 1)]);
    assert_eq!(book.title, "A Title");
    assert_eq!(book.authors, "An Author");
    assert_eq!(book.genres, vec!["g1".to_string(), "g2".to_string()]);
    assert_eq!(book.total_chapters, 1);
}
