use light_writer::book::{Chapter, Page};
use light_writer::segment::{count_characters, render_blob, segment_text, WINDOW};

fn names(chapters: &[Chapter]) -> Vec<String> {
    chapters.iter().map(|c| c.chapter.clone()).collect()
}

#[test]
fn single_chapter_under_window() {
    let input = "[ch-Intro]Hello world. This is a test.";
    let (chapters, next) = segment_text(input, 1);
    assert_eq!(chapters.len(), 1);
    assert_eq!(chapters[0].chapter, "Intro");
    assert_eq!(chapters[0].pages.len(), 1);
    assert_eq!(chapters[0].pages[0].page_number, 1);
    assert_eq!(chapters[0].pages[0].content, "Hello world. This is a test.");
    assert_eq!(chapters[0].notes, "");
    assert!(chapters[0].quotes.is_empty());
    assert_eq!(next, 2);
}

#[test]
fn global_page_numbering_continues_across_chapters() {
    // Chapter A: 4001 characters without a '.', so it cuts into pages of
    // 2000, 2000 and 1 characters; chapter B then starts at page 4.
    let body_a = "a".repeat(2 * WINDOW + 1);
    let input = format!("[ch-A]{}[ch-B]b", body_a);
    let (chapters, next) = segment_text(&input, 1);
    assert_eq!(chapters.len(), 2);
    assert_eq!(names(&chapters), vec!["A", "B"]);
    assert_eq!(chapters[0].pages.len(), 3);
    assert_eq!(chapters[0].pages[0].page_number, 1);
    assert_eq!(chapters[0].pages[1].page_number, 2);
    assert_eq!(chapters[0].pages[2].page_number, 3);
    assert_eq!(chapters[0].pages[0].content.len(), WINDOW);
    assert_eq!(chapters[0].pages[2].content.len(), 1);
    assert_eq!(chapters[1].pages.len(), 1);
    assert_eq!(chapters[1].pages[0].page_number, 4);
    assert_eq!(next, 5);
}

#[test]
fn sentence_boundary_cut_inside_window() {
    // A body of WINDOW + 10 characters whose only '.' sits at index
    // WINDOW - 5: the first page ends right after the '.', at WINDOW - 4.
    let mut body = "a".repeat(WINDOW - 5);
    body.push('.');
    body.push_str(&"b".repeat(14));
    assert_eq!(body.len(), WINDOW + 10);
    let input = format!("[ch-C]{}", body);
    let (chapters, _) = segment_text(&input, 1);
    assert_eq!(chapters[0].pages.len(), 2);
    assert_eq!(chapters[0].pages[0].content.len(), WINDOW - 4);
    assert!(chapters[0].pages[0].content.ends_with('.'));
    assert_eq!(chapters[0].pages[1].content, "b".repeat(14));
}

#[test]
fn hard_cut_at_window_without_period() {
    let body = "x".repeat(WINDOW + 10);
    let input = format!("[ch-D]{}", body);
    let (chapters, _) = segment_text(&input, 1);
    assert_eq!(chapters[0].pages.len(), 2);
    assert_eq!(chapters[0].pages[0].content.len(), WINDOW);
    assert_eq!(chapters[0].pages[1].content.len(), 10);
}

#[test]
fn short_body_still_cuts_at_last_period() {
    // Even when the whole remainder fits in the window, the cut falls after
    // the last '.' of the window.
    let (chapters, next) = segment_text("[ch-E]One. Two", 1);
    assert_eq!(chapters[0].pages.len(), 2);
    assert_eq!(chapters[0].pages[0].content, "One.");
    assert_eq!(chapters[0].pages[1].content, " Two");
    assert_eq!(next, 3);
}

#[test]
fn no_markers_yields_no_chapters() {
    let (chapters, next) = segment_text("just some text. no markers here", 7);
    assert!(chapters.is_empty());
    assert_eq!(next, 7);
}

#[test]
fn empty_chapter_name_is_legal() {
    let (chapters, _) = segment_text("[ch-]body.", 1);
    assert_eq!(chapters.len(), 1);
    assert_eq!(chapters[0].chapter, "");
    assert_eq!(chapters[0].pages[0].content, "body.");
}

#[test]
fn empty_span_yields_chapter_with_no_pages() {
    let (chapters, next) = segment_text("[ch-A][ch-B]rest.", 3);
    assert_eq!(chapters.len(), 2);
    assert_eq!(chapters[0].chapter, "A");
    assert_eq!(chapters[0].pages.len(), 0);
    assert_eq!(chapters[1].chapter, "B");
    assert_eq!(chapters[1].pages[0].page_number, 3);
    assert_eq!(next, 4);
}

#[test]
fn unclosed_marker_is_not_a_marker() {
    let (chapters, next) = segment_text("[ch-Oops no closing bracket", 1);
    assert!(chapters.is_empty());
    assert_eq!(next, 1);
}

#[test]
fn text_before_first_marker_is_discarded() {
    let (chapters, _) = segment_text("preamble text.[ch-X]tail.", 1);
    assert_eq!(chapters.len(), 1);
    assert_eq!(chapters[0].chapter, "X");
    assert_eq!(chapters[0].pages[0].content, "tail.");
}

#[test]
fn chapter_name_stops_at_first_closing_bracket() {
    let (chapters, _) = segment_text("[ch-Name]rest].", 1);
    assert_eq!(chapters[0].chapter, "Name");
    assert_eq!(chapters[0].pages[0].content, "rest].");
}

#[test]
fn blob_joins_pages_with_inline_markers() {
    let (chapters, _) = segment_text("[ch-E]One. Two", 1);
    let blob = render_blob(&chapters[0].pages);
    assert_eq!(blob, "One.\n[page 2]\n Two");
}

#[test]
fn blob_of_a_single_page_has_no_trailing_marker() {
    let (chapters, _) = segment_text("[ch-F]all one page, no period", 5);
    let blob = render_blob(&chapters[0].pages);
    assert_eq!(blob, "all one page, no period");
}

#[test]
fn blob_of_no_pages_is_empty() {
    assert_eq!(render_blob(&Vec::new()), "");
}

#[test]
fn blob_markers_carry_multi_digit_page_numbers() {
    let pages = vec![
        Page { page_number: 9, content: "nine".to_string() },
        Page { page_number: 10, content: "ten".to_string() },
        Page { page_number: 11, content: "eleven".to_string() },
    ];
    let blob = render_blob(&pages);
    assert_eq!(blob, "nine\n[page 10]\nten\n[page 11]\neleven");
}

#[test]
fn count_characters_counts_unicode_characters() {
    assert_eq!(count_characters(""), 0);
    assert_eq!(count_characters("hello"), 5);
    assert_eq!(count_characters("héllo"), 5);
}
