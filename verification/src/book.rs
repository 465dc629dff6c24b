//! The record model: a book is metadata plus an ordered sequence of chapters,
//! each chapter an ordered sequence of pages. Chapters are keyed by name;
//! merging never overwrites a chapter that is already present.

use vstd::prelude::*;

verus! {

/// One bounded slice of a chapter's text. Page numbers are global across the
/// whole record, not per chapter.
pub struct Page {
    pub page_number: usize,
    pub content: String,
}

/// Mathematical value of a `Page`.
pub ghost struct PageView {
    pub page_number: int,
    pub content: Seq<char>,
}

impl View for Page {
    type V = PageView;

    open spec fn view(&self) -> PageView {
        PageView { page_number: self.page_number as int, content: self.content@ }
    }
}

/// A chapter: its name (the unique key within a record), its pages in order,
/// and free-form notes and quotes.
pub struct Chapter {
    pub chapter: String,
    pub pages: Vec<Page>,
    pub notes: String,
    pub quotes: Vec<String>,
}

/// Mathematical value of a `Chapter`.
pub ghost struct ChapterView {
    pub chapter: Seq<char>,
    pub pages: Seq<PageView>,
    pub notes: Seq<char>,
    pub quotes: Seq<Seq<char>>,
}

impl View for Chapter {
    type V = ChapterView;

    open spec fn view(&self) -> ChapterView {
        ChapterView {
            chapter: self.chapter@,
            pages: Seq::new(self.pages@.len(), |i: int| self.pages@[i]@),
            notes: self.notes@,
            quotes: Seq::new(self.quotes@.len(), |i: int| self.quotes@[i]@),
        }
    }
}

/// The book record: free-form descriptive metadata, the ordered chapters, and
/// the derived chapter count.
pub struct BookMetadata {
    pub title: String,
    pub authors: String,
    pub production: String,
    pub subtitle: String,
    pub page_index: u32,
    pub isbn: String,
    pub publisher: String,
    pub publication_date: String,
    pub language: String,
    pub genres: Vec<String>,
    pub tags: Vec<String>,
    pub edition: String,
    pub description: String,
    pub table_of_contents: Vec<String>,
    pub cover_image_url: String,
    pub page_count: u32,
    pub notes: String,
    pub quotes: Vec<String>,
    pub references: Vec<String>,
    pub keywords: Vec<String>,
    pub modified_date: String,
    pub categories: Vec<String>,
    pub illustrator: String,
    pub editor: String,
    pub translator: String,
    pub dedication: String,
    pub acknowledgments: String,
    pub introduction: String,
    pub preface: String,
    pub appendices: Vec<String>,
    pub index_terms: Vec<String>,
    pub related_books: Vec<String>,
    pub resources: Vec<String>,
    pub format: String,
    pub content: Vec<Chapter>,
    pub total_chapters: usize,
}

/// An empty record: zero chapters, every string field empty, every list empty,
/// every count zero. Absent values are represented as empty strings, never as
/// missing fields.
pub open spec fn is_empty_record(b: BookMetadata) -> bool {
    &&& b.title@ == Seq::<char>::empty()
    &&& b.authors@ == Seq::<char>::empty()
    &&& b.production@ == Seq::<char>::empty()
    &&& b.subtitle@ == Seq::<char>::empty()
    &&& b.page_index == 0u32
    &&& b.isbn@ == Seq::<char>::empty()
    &&& b.publisher@ == Seq::<char>::empty()
    &&& b.publication_date@ == Seq::<char>::empty()
    &&& b.language@ == Seq::<char>::empty()
    &&& b.genres@ == Seq::<String>::empty()
    &&& b.tags@ == Seq::<String>::empty()
    &&& b.edition@ == Seq::<char>::empty()
    &&& b.description@ == Seq::<char>::empty()
    &&& b.table_of_contents@ == Seq::<String>::empty()
    &&& b.cover_image_url@ == Seq::<char>::empty()
    &&& b.page_count == 0u32
    &&& b.notes@ == Seq::<char>::empty()
    &&& b.quotes@ == Seq::<String>::empty()
    &&& b.references@ == Seq::<String>::empty()
    &&& b.keywords@ == Seq::<String>::empty()
    &&& b.modified_date@ == Seq::<char>::empty()
    &&& b.categories@ == Seq::<String>::empty()
    &&& b.illustrator@ == Seq::<char>::empty()
    &&& b.editor@ == Seq::<char>::empty()
    &&& b.translator@ == Seq::<char>::empty()
    &&& b.dedication@ == Seq::<char>::empty()
    &&& b.acknowledgments@ == Seq::<char>::empty()
    &&& b.introduction@ == Seq::<char>::empty()
    &&& b.preface@ == Seq::<char>::empty()
    &&& b.appendices@ == Seq::<String>::empty()
    &&& b.index_terms@ == Seq::<String>::empty()
    &&& b.related_books@ == Seq::<String>::empty()
    &&& b.resources@ == Seq::<String>::empty()
    &&& b.format@ == Seq::<char>::empty()
    &&& b.content@ == Seq::<Chapter>::empty()
    &&& b.total_chapters == 0usize
}

/// Two records agree on every metadata field; only the chapters and the
/// derived count may differ.
pub open spec fn same_metadata(a: BookMetadata, b: BookMetadata) -> bool {
    &&& a.title == b.title
    &&& a.authors == b.authors
    &&& a.production == b.production
    &&& a.subtitle == b.subtitle
    &&& a.page_index == b.page_index
    &&& a.isbn == b.isbn
    &&& a.publisher == b.publisher
    &&& a.publication_date == b.publication_date
    &&& a.language == b.language
    &&& a.genres == b.genres
    &&& a.tags == b.tags
    &&& a.edition == b.edition
    &&& a.description == b.description
    &&& a.table_of_contents == b.table_of_contents
    &&& a.cover_image_url == b.cover_image_url
    &&& a.page_count == b.page_count
    &&& a.notes == b.notes
    &&& a.quotes == b.quotes
    &&& a.references == b.references
    &&& a.keywords == b.keywords
    &&& a.modified_date == b.modified_date
    &&& a.categories == b.categories
    &&& a.illustrator == b.illustrator
    &&& a.editor == b.editor
    &&& a.translator == b.translator
    &&& a.dedication == b.dedication
    &&& a.acknowledgments == b.acknowledgments
    &&& a.introduction == b.introduction
    &&& a.preface == b.preface
    &&& a.appendices == b.appendices
    &&& a.index_terms == b.index_terms
    &&& a.related_books == b.related_books
    &&& a.resources == b.resources
    &&& a.format == b.format
}

impl BookMetadata {
    /// A fresh, empty record: no chapters, every field empty or zero.
    pub fn new() -> (r: BookMetadata)
        ensures
            is_empty_record(r),
    {
        BookMetadata {
            title: String::new(),
            authors: String::new(),
            production: String::new(),
            subtitle: String::new(),
            page_index: 0,
            isbn: String::new(),
            publisher: String::new(),
            publication_date: String::new(),
            language: String::new(),
            genres: Vec::new(),
            tags: Vec::new(),
            edition: String::new(),
            description: String::new(),
            table_of_contents: Vec::new(),
            cover_image_url: String::new(),
            page_count: 0,
            notes: String::new(),
            quotes: Vec::new(),
            references: Vec::new(),
            keywords: Vec::new(),
            modified_date: String::new(),
            categories: Vec::new(),
            illustrator: String::new(),
            editor: String::new(),
            translator: String::new(),
            dedication: String::new(),
            acknowledgments: String::new(),
            introduction: String::new(),
            preface: String::new(),
            appendices: Vec::new(),
            index_terms: Vec::new(),
            related_books: Vec::new(),
            resources: Vec::new(),
            format: String::new(),
            content: Vec::new(),
            total_chapters: 0,
        }
    }
}

/// Some chapter in `chs` already carries this name (case-sensitive).
pub open spec fn has_chapter(chs: Seq<Chapter>, name: Seq<char>) -> bool {
    exists|i: int| 0 <= i < chs.len() && chs[i].chapter@ == name
}

/// The chapters after merging `new` into `existing`, in order: each chapter of
/// `new` is appended exactly when its name is not yet present.
pub open spec fn merge_model(existing: Seq<Chapter>, new: Seq<Chapter>) -> Seq<Chapter>
    decreases new.len(),
{
    if new.len() == 0 {
        existing
    } else if has_chapter(existing, new[0].chapter@) {
        merge_model(existing, new.drop_first())
    } else {
        merge_model(existing.push(new[0]), new.drop_first())
    }
}

/// Whether one of the chapters is named `name`.
pub fn contains_chapter(chs: &Vec<Chapter>, name: &String) -> (r: bool)
    ensures
        r == has_chapter(chs@, name@),
{
    let mut i: usize = 0;
    while i < chs.len()
        invariant
            i <= chs@.len(),
            forall|j: int| 0 <= j < i ==> chs@[j].chapter@ != name@,
        decreases chs@.len() - i,
    {
        if chs[i].chapter == *name {
            return true;
        }
        i += 1;
    }
    false
}

/// Merge newly segmented chapters into an existing record, or into a fresh
/// empty record when none exists. A chapter whose name is already present is
/// skipped; the chapter count is recomputed from the chapter sequence.
pub fn merge(existing: Option<BookMetadata>, new_chapters: Vec<Chapter>) -> (r: BookMetadata)
    ensures
        match existing {
            Some(base) => r.content@ == merge_model(base.content@, new_chapters@)
                && same_metadata(r, base) && (unique_names(base.content@) ==> unique_names(
                r.content@,
            )),
            None => r.content@ == merge_model(Seq::<Chapter>::empty(), new_chapters@)
                && r.title@ == Seq::<char>::empty() && unique_names(r.content@),
        },
        r.total_chapters == r.content@.len(),
{
    let mut book = match existing {
        Some(b) => b,
        None => BookMetadata::new(),
    };
    let ghost base_content: Seq<Chapter> = book.content@;
    let ghost base_book: BookMetadata = book;
    let mut rest = new_chapters;
    while rest.len() > 0
        invariant
            merge_model(book.content@, rest@) == merge_model(base_content, new_chapters@),
            same_metadata(book, base_book),
        decreases rest@.len(),
    {
        let ghost rest0 = rest@;
        let ch = rest.remove(0);
        proof {
            assert(rest@ =~= rest0.drop_first());
        }
        if !contains_chapter(&book.content, &ch.chapter) {
            book.content.push(ch);
        }
    }
    book.total_chapters = book.content.len();
    proof {
        if unique_names(base_content) {
            lemma_merge_keeps_names_unique(base_content, new_chapters@);
        }
    }
    book
}

/// No two chapters carry the same name.
pub open spec fn unique_names(chs: Seq<Chapter>) -> bool {
    forall|i: int, j: int|
        0 <= i < j < chs.len() ==> chs[i].chapter@ != chs[j].chapter@
}

/// Law: merging keeps chapter names unique. A record whose chapter names are
/// unique still has unique names after any merge, since a chapter is appended
/// only when its name is absent.
pub proof fn lemma_merge_keeps_names_unique(existing: Seq<Chapter>, new: Seq<Chapter>)
    requires
        unique_names(existing),
    ensures
        unique_names(merge_model(existing, new)),
    decreases new.len(),
{
    if new.len() == 0 {
    } else if has_chapter(existing, new[0].chapter@) {
        lemma_merge_keeps_names_unique(existing, new.drop_first());
    } else {
        let pushed = existing.push(new[0]);
        assert forall|i: int, j: int| 0 <= i < j < pushed.len() implies pushed[i].chapter@
            != pushed[j].chapter@ by {
            if j == existing.len() {
                assert(pushed[i] == existing[i]);
                if pushed[i].chapter@ == new[0].chapter@ {
                    assert(has_chapter(existing, new[0].chapter@));
                }
            } else {
                assert(pushed[i] == existing[i] && pushed[j] == existing[j]);
            }
        };
        lemma_merge_keeps_names_unique(pushed, new.drop_first());
    }
}

proof fn lemma_merge_preserves_has(existing: Seq<Chapter>, new: Seq<Chapter>, name: Seq<char>)
    requires
        has_chapter(existing, name),
    ensures
        has_chapter(merge_model(existing, new), name),
    decreases new.len(),
{
    if new.len() == 0 {
    } else if has_chapter(existing, new[0].chapter@) {
        lemma_merge_preserves_has(existing, new.drop_first(), name);
    } else {
        let i = choose|i: int| 0 <= i < existing.len() && existing[i].chapter@ == name;
        assert(existing.push(new[0])[i].chapter@ == name);
        lemma_merge_preserves_has(existing.push(new[0]), new.drop_first(), name);
    }
}

proof fn lemma_merge_adds_all(existing: Seq<Chapter>, new: Seq<Chapter>, k: int)
    requires
        0 <= k < new.len(),
    ensures
        has_chapter(merge_model(existing, new), new[k].chapter@),
    decreases new.len(),
{
    if k == 0 {
        if has_chapter(existing, new[0].chapter@) {
            lemma_merge_preserves_has(existing, new.drop_first(), new[0].chapter@);
        } else {
            let pushed = existing.push(new[0]);
            assert(pushed[existing.len() as int].chapter@ == new[0].chapter@);
            lemma_merge_preserves_has(pushed, new.drop_first(), new[0].chapter@);
        }
    } else {
        assert(new.drop_first()[k - 1] == new[k]);
        if has_chapter(existing, new[0].chapter@) {
            lemma_merge_adds_all(existing, new.drop_first(), k - 1);
        } else {
            lemma_merge_adds_all(existing.push(new[0]), new.drop_first(), k - 1);
        }
    }
}

proof fn lemma_merge_noop(existing: Seq<Chapter>, new: Seq<Chapter>)
    requires
        forall|i: int| 0 <= i < new.len() ==> has_chapter(existing, #[trigger] new[i].chapter@),
    ensures
        merge_model(existing, new) == existing,
    decreases new.len(),
{
    if new.len() > 0 {
        assert(has_chapter(existing, new[0].chapter@));
        assert(forall|i: int|
            0 <= i < new.drop_first().len() ==> #[trigger] new.drop_first()[i] == new[i + 1]);
        lemma_merge_noop(existing, new.drop_first());
    }
}

/// Law: the merge is idempotent. Merging a batch of chapters and then merging
/// a second batch with the same names (such as the chapters produced by
/// segmenting the same text again) leaves the chapters exactly as they were
/// after the first merge.
pub proof fn lemma_merge_idempotent(existing: Seq<Chapter>, batch: Seq<Chapter>, again: Seq<Chapter>)
    requires
        again.len() == batch.len(),
        forall|i: int| 0 <= i < batch.len() ==> #[trigger] again[i].chapter@ == batch[i].chapter@,
    ensures
        merge_model(merge_model(existing, batch), again) == merge_model(existing, batch),
{
    let merged = merge_model(existing, batch);
    assert forall|i: int| 0 <= i < again.len() implies has_chapter(
        merged,
        #[trigger] again[i].chapter@,
    ) by {
        lemma_merge_adds_all(existing, batch, i);
    };
    lemma_merge_noop(merged, again);
}

} // verus!
