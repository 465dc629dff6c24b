//! The segmenter: it locates chapter markers of the form `[ch-<name>]` in raw
//! text, slices each chapter span into pages of at most `WINDOW` characters
//! cut on sentence boundaries, and numbers the pages with a single global
//! counter that runs across all chapters.

use vstd::math::min;
use vstd::prelude::*;
use vstd::string::StrSliceExecFns;
use vstd::string::StringExecFns;

use crate::book::{Chapter, ChapterView, Page, PageView};

verus! {

/// The fixed page window: a page holds at most this many characters.
pub const WINDOW: usize = 2000;

/// Index of the first occurrence of `c` in `s` at or after `i`.
pub open spec fn find_char_from(s: Seq<char>, i: int, c: char) -> Option<int>
    decreases s.len() - i,
    when 0 <= i
{
    if i >= s.len() {
        None
    } else if s[i] == c {
        Some(i)
    } else {
        find_char_from(s, i + 1, c)
    }
}

pub proof fn lemma_find_char_from(s: Seq<char>, i: int, c: char)
    requires
        0 <= i,
    ensures
        match find_char_from(s, i, c) {
            Some(j) => i <= j < s.len() && s[j] == c && forall|k: int| i <= k < j ==> s[k] != c,
            None => forall|k: int| i <= k < s.len() ==> s[k] != c,
        },
    decreases s.len() - i,
{
    if i >= s.len() {
    } else if s[i] == c {
    } else {
        lemma_find_char_from(s, i + 1, c);
    }
}

/// Scan `s` left to right from character index `from` for `c`.
pub fn find_char(s: &str, from: usize, c: char) -> (r: Option<usize>)
    ensures
        match r {
            Some(j) => find_char_from(s@, from as int, c) == Some(j as int),
            None => find_char_from(s@, from as int, c) is None,
        },
{
    let n = s.unicode_len();
    let mut i = from;
    while i < n
        invariant
            n == s@.len(),
            from <= i,
            find_char_from(s@, from as int, c) == find_char_from(s@, i as int, c),
        decreases n - i,
    {
        if s.get_char(i) == c {
            return Some(i);
        }
        i += 1;
    }
    None
}

/// A chapter marker `[ch-<name>]` opens at `i`: the four tag characters are
/// present and a closing bracket follows somewhere after them.
pub open spec fn is_marker_at(s: Seq<char>, i: int) -> bool {
    &&& 0 <= i
    &&& i + 4 <= s.len()
    &&& s[i] == '['
    &&& s[i + 1] == 'c'
    &&& s[i + 2] == 'h'
    &&& s[i + 3] == '-'
    &&& find_char_from(s, i + 4, ']') is Some
}

/// Position of the first chapter marker at or after `i`.
pub open spec fn find_marker_from(s: Seq<char>, i: int) -> Option<int>
    decreases s.len() - i,
    when 0 <= i
{
    if i + 4 > s.len() {
        None
    } else if is_marker_at(s, i) {
        Some(i)
    } else {
        find_marker_from(s, i + 1)
    }
}

pub proof fn lemma_find_marker_from(s: Seq<char>, i: int)
    requires
        0 <= i,
    ensures
        match find_marker_from(s, i) {
            Some(m) => i <= m && is_marker_at(s, m),
            None => true,
        },
    decreases s.len() - i,
{
    if i + 4 > s.len() {
    } else if is_marker_at(s, i) {
    } else {
        lemma_find_marker_from(s, i + 1);
    }
}

/// Scan `s` from character index `from` for the next chapter marker.
pub fn find_marker(s: &str, from: usize) -> (r: Option<usize>)
    ensures
        match r {
            Some(m) => find_marker_from(s@, from as int) == Some(m as int),
            None => find_marker_from(s@, from as int) is None,
        },
{
    let n = s.unicode_len();
    if n < 4 {
        return None;
    }
    let mut i = from;
    while i <= n - 4
        invariant
            n == s@.len(),
            4 <= n,
            from <= i,
            find_marker_from(s@, from as int) == find_marker_from(s@, i as int),
        decreases n - i,
    {
        if s.get_char(i) == '[' && s.get_char(i + 1) == 'c' && s.get_char(i + 2) == 'h'
            && s.get_char(i + 3) == '-' {
            let close = find_char(s, i + 4, ']');
            if close.is_some() {
                return Some(i);
            }
        }
        i += 1;
    }
    None
}

/// Position of the last '.' in `s` within `[from, to)`, if any.
pub open spec fn last_dot_in(s: Seq<char>, from: int, to: int) -> Option<int>
    decreases to - from,
{
    if to <= from {
        None
    } else if s[to - 1] == '.' {
        Some(to - 1)
    } else {
        last_dot_in(s, from, to - 1)
    }
}

pub proof fn lemma_last_dot_in(s: Seq<char>, from: int, to: int)
    ensures
        match last_dot_in(s, from, to) {
            Some(j) => from <= j < to && s[j] == '.' && forall|k: int| j < k < to ==> s[k] != '.',
            None => forall|k: int| from <= k < to ==> s[k] != '.',
        },
    decreases to - from,
{
    if to <= from {
    } else if s[to - 1] == '.' {
    } else {
        lemma_last_dot_in(s, from, to - 1);
    }
}

/// Scan backward for the last '.' in `s` within `[from, to)`.
pub fn last_dot(s: &str, from: usize, to: usize) -> (r: Option<usize>)
    requires
        from <= to,
        to as int <= s@.len(),
    ensures
        match r {
            Some(j) => last_dot_in(s@, from as int, to as int) == Some(j as int),
            None => last_dot_in(s@, from as int, to as int) is None,
        },
{
    let mut k = to;
    while k > from
        invariant
            from <= k <= to,
            to as int <= s@.len(),
            last_dot_in(s@, from as int, to as int) == last_dot_in(s@, from as int, k as int),
        decreases k,
    {
        if s.get_char(k - 1) == '.' {
            return Some(k - 1);
        }
        k -= 1;
    }
    None
}

/// Where the page that starts at `pos` ends: right after the last '.' inside
/// the window of `WINDOW` characters, or at the window limit when the window
/// holds no '.'.
pub open spec fn cut_at(s: Seq<char>, pos: int) -> int {
    let w = min(pos + WINDOW as int, s.len() as int);
    match last_dot_in(s, pos, w) {
        Some(j) => j + 1,
        None => w,
    }
}

pub proof fn lemma_cut_at(s: Seq<char>, pos: int)
    requires
        0 <= pos < s.len(),
    ensures
        pos < cut_at(s, pos) <= s.len(),
{
    lemma_last_dot_in(s, pos, min(pos + WINDOW as int, s.len() as int));
}

/// The page slices of the chapter span `[pos, s.len())`, in order.
pub open spec fn span_slices(s: Seq<char>, pos: int) -> Seq<Seq<char>>
    decreases s.len() - pos,
    when 0 <= pos
    via span_slices_dec
{
    if pos >= s.len() {
        Seq::empty()
    } else {
        seq![s.subrange(pos, cut_at(s, pos))] + span_slices(s, cut_at(s, pos))
    }
}

#[via_fn]
proof fn span_slices_dec(s: Seq<char>, pos: int) {
    if 0 <= pos < s.len() {
        lemma_cut_at(s, pos);
    }
}

/// The pages that a list of slices yields when numbered from `start`.
pub open spec fn pages_of(slices: Seq<Seq<char>>, start: int) -> Seq<PageView> {
    Seq::new(slices.len(), |i: int| PageView { page_number: start + i, content: slices[i] })
}

proof fn lemma_span_slices_count(s: Seq<char>, pos: int)
    requires
        0 <= pos,
    ensures
        span_slices(s, pos).len() <= s.len() - pos || span_slices(s, pos).len() == 0,
    decreases s.len() - pos,
{
    if pos < s.len() {
        lemma_cut_at(s, pos);
        lemma_span_slices_count(s, cut_at(s, pos));
    }
}

/// Cut the chapter span `body` into pages numbered consecutively from
/// `start`; also return the next free page number.
pub fn paginate(body: &str, start: usize) -> (r: (Vec<Page>, usize))
    requires
        start as int + body@.len() <= usize::MAX as int,
    ensures
        ({
            let slices = span_slices(body@, 0);
            &&& r.0@.len() == slices.len()
            &&& forall|i: int|
                0 <= i < slices.len() ==> r.0@[i]@ == pages_of(slices, start as int)[i]
            &&& r.1 as int == start as int + slices.len()
            &&& r.1 as int <= start as int + body@.len()
        }),
{
    let n = body.unicode_len();
    let ghost all = span_slices(body@, 0);
    let mut pages: Vec<Page> = Vec::new();
    let mut num = start;
    let mut pos: usize = 0;
    proof {
        lemma_span_slices_count(body@, 0);
    }
    while pos < n
        invariant
            n == body@.len(),
            start as int + n as int <= usize::MAX as int,
            pos <= n,
            all == span_slices(body@, 0),
            pages@.len() <= pos,
            num as int == start as int + pages@.len(),
            pages@.len() <= all.len(),
            span_slices(body@, pos as int) == all.skip(pages@.len() as int),
            forall|i: int| 0 <= i < pages@.len() ==> pages@[i]@ == pages_of(all, start as int)[i],
        decreases n - pos,
    {
        let ghost k = pages@.len() as int;
        let w = if n - pos > WINDOW {
            pos + WINDOW
        } else {
            n
        };
        let dot = last_dot(body, pos, w);
        proof {
            lemma_last_dot_in(body@, pos as int, w as int);
        }
        let c = match dot {
            Some(j) => j + 1,
            None => w,
        };
        proof {
            lemma_cut_at(body@, pos as int);
            assert(c as int == cut_at(body@, pos as int));
            assert(span_slices(body@, pos as int).len() > 0);
            assert(all.skip(k).len() == all.len() - k);
            assert(k < all.len());
            assert(span_slices(body@, pos as int)[0] == body@.subrange(pos as int, c as int));
            assert(all.skip(k)[0] == all[k]);
        }
        let content = body.substring_char(pos, c);
        pages.push(Page { page_number: num, content: String::from_str(content) });
        num = num + 1;
        proof {
            assert(span_slices(body@, c as int) == span_slices(body@, pos as int).drop_first());
            assert(all.skip(k).drop_first() =~= all.skip(k + 1));
            assert(pages@[k]@ == pages_of(all, start as int)[k]);
        }
        pos = c;
    }
    proof {
        assert(span_slices(body@, pos as int) =~= Seq::<Seq<char>>::empty());
        assert(all.skip(pages@.len() as int).len() == 0);
    }
    (pages, num)
}

/// The views of a sequence of chapters.
pub open spec fn views_of(chs: Seq<Chapter>) -> Seq<ChapterView> {
    Seq::new(chs.len(), |i: int| chs[i]@)
}

/// The chapters and the next free page number that segmentation of `s`
/// yields, scanning for markers from `i` with the global page counter at
/// `start`. Text before the first marker is discarded; each chapter's span
/// runs from the end of its marker to the start of the next marker, or to the
/// end of the text.
pub open spec fn segment_from(s: Seq<char>, i: int, start: int) -> (Seq<ChapterView>, int)
    decreases s.len() - i,
    when 0 <= i
    via segment_from_dec
{
    match find_marker_from(s, i) {
        None => (Seq::empty(), start),
        Some(m) => match find_char_from(s, m + 4, ']') {
            None => (Seq::empty(), start),
            Some(close) => {
                let body_end = match find_marker_from(s, close + 1) {
                    None => s.len() as int,
                    Some(m2) => m2,
                };
                let slices = span_slices(s.subrange(close + 1, body_end), 0);
                let ch = ChapterView {
                    chapter: s.subrange(m + 4, close),
                    pages: pages_of(slices, start),
                    notes: Seq::empty(),
                    quotes: Seq::empty(),
                };
                let rest = segment_from(s, body_end, start + slices.len());
                (seq![ch] + rest.0, rest.1)
            },
        },
    }
}

#[via_fn]
proof fn segment_from_dec(s: Seq<char>, i: int, start: int) {
    if 0 <= i {
        lemma_find_marker_from(s, i);
        if let Some(m) = find_marker_from(s, i) {
            lemma_find_char_from(s, m + 4, ']');
            if let Some(close) = find_char_from(s, m + 4, ']') {
                lemma_find_marker_from(s, close + 1);
            }
        }
    }
}

/// Split `raw` into chapters and pages. The page counter starts at
/// `start_page` and runs across chapters; the second component of the result
/// is the page number that a later run should continue from.
pub fn segment_text(raw: &str, start_page: usize) -> (r: (Vec<Chapter>, usize))
    requires
        start_page as int + raw@.len() <= usize::MAX as int,
    ensures
        ({
            let (model, next) = segment_from(raw@, 0, start_page as int);
            &&& r.0@.len() == model.len()
            &&& forall|i: int| 0 <= i < model.len() ==> r.0@[i]@ == model[i]
            &&& r.1 as int == next
        }),
{
    let n = raw.unicode_len();
    let mut chapters: Vec<Chapter> = Vec::new();
    let mut page = start_page;
    let mut search: usize = 0;
    loop
        invariant
            n == raw@.len(),
            start_page as int + n as int <= usize::MAX as int,
            search <= n,
            page as int <= start_page as int + search as int,
            segment_from(raw@, 0, start_page as int).0 == views_of(chapters@) + segment_from(
                raw@,
                search as int,
                page as int,
            ).0,
            segment_from(raw@, 0, start_page as int).1 == segment_from(
                raw@,
                search as int,
                page as int,
            ).1,
        ensures
            find_marker_from(raw@, search as int) is None,
        decreases n - search,
    {
        let m_opt = find_marker(raw, search);
        let m = match m_opt {
            None => { break ; },
            Some(m) => m,
        };
        proof {
            lemma_find_marker_from(raw@, search as int);
        }
        let close_opt = find_char(raw, m + 4, ']');
        proof {
            lemma_find_char_from(raw@, m as int + 4, ']');
        }
        let close = close_opt.unwrap();
        let name_str = raw.substring_char(m + 4, close);
        let e = close + 1;
        let m2_opt = find_marker(raw, e);
        proof {
            lemma_find_marker_from(raw@, e as int);
        }
        let body_end = match m2_opt {
            None => n,
            Some(m2) => m2,
        };
        let body = raw.substring_char(e, body_end);
        let (pages, next_page) = paginate(body, page);
        let ghost old_chapters = chapters@;
        let ghost slices = span_slices(raw@.subrange(e as int, body_end as int), 0);
        let ghost ch_model = ChapterView {
            chapter: raw@.subrange(m as int + 4, close as int),
            pages: pages_of(slices, page as int),
            notes: Seq::<char>::empty(),
            quotes: Seq::<Seq<char>>::empty(),
        };
        let new_chapter = Chapter {
            chapter: String::from_str(name_str),
            pages,
            notes: String::new(),
            quotes: Vec::new(),
        };
        proof {
            assert(new_chapter@.pages =~= ch_model.pages);
            assert(new_chapter@.quotes =~= ch_model.quotes);
            assert(new_chapter@ == ch_model);
            let rest = segment_from(raw@, search as int, page as int);
            let tail = segment_from(raw@, body_end as int, page as int + slices.len());
            assert(rest.0 == seq![ch_model] + tail.0);
            assert(rest.1 == tail.1);
        }
        chapters.push(new_chapter);
        proof {
            assert(views_of(chapters@) =~= views_of(old_chapters).push(ch_model));
            assert(views_of(old_chapters) + (seq![ch_model] + segment_from(
                raw@,
                body_end as int,
                page as int + slices.len(),
            ).0) =~= views_of(chapters@) + segment_from(
                raw@,
                body_end as int,
                page as int + slices.len(),
            ).0);
        }
        page = next_page;
        search = body_end;
    }
    proof {
        assert(segment_from(raw@, search as int, page as int).0 =~= Seq::<ChapterView>::empty());
        assert(views_of(chapters@) + Seq::<ChapterView>::empty() =~= views_of(chapters@));
    }
    (chapters, page)
}

/// The decimal digit characters '0' through '9', in value order.
pub open spec fn dec_digits() -> Seq<char> {
    seq!['0', '1', '2', '3', '4', '5', '6', '7', '8', '9']
}

/// The decimal numeral of `n`, most significant digit first.
pub open spec fn dec_str(n: int) -> Seq<char>
    recommends
        n >= 0,
    decreases n,
{
    if n <= 9 {
        seq![dec_digits()[if 0 <= n { n } else { 0 }]]
    } else {
        dec_str(n / 10) + seq![dec_digits()[n % 10]]
    }
}

fn digit_str(d: usize) -> (r: &'static str)
    requires
        d < 10,
    ensures
        r@ == seq![dec_digits()[d as int]],
{
    let r: &'static str = if d == 0 {
        "0"
    } else if d == 1 {
        "1"
    } else if d == 2 {
        "2"
    } else if d == 3 {
        "3"
    } else if d == 4 {
        "4"
    } else if d == 5 {
        "5"
    } else if d == 6 {
        "6"
    } else if d == 7 {
        "7"
    } else if d == 8 {
        "8"
    } else {
        "9"
    };
    proof {
        reveal_strlit("0");
        reveal_strlit("1");
        reveal_strlit("2");
        reveal_strlit("3");
        reveal_strlit("4");
        reveal_strlit("5");
        reveal_strlit("6");
        reveal_strlit("7");
        reveal_strlit("8");
        reveal_strlit("9");
        assert(r@ =~= seq![dec_digits()[d as int]]);
    }
    r
}

/// Render `n` as its decimal numeral.
pub fn usize_to_string(n: usize) -> (r: String)
    ensures
        r@ == dec_str(n as int),
    decreases n,
{
    if n <= 9 {
        String::from_str(digit_str(n))
    } else {
        proof {
            assert(n / 10 < n) by (nonlinear_arith)
                requires
                    n >= 10,
            ;
        }
        let mut s = usize_to_string(n / 10);
        s.append(digit_str(n % 10));
        s
    }
}

/// The views of a sequence of pages.
pub open spec fn page_views(ps: Seq<Page>) -> Seq<PageView> {
    Seq::new(ps.len(), |i: int| ps[i]@)
}

/// The inline page-marker annotation for page number `n`.
pub open spec fn page_marker(n: int) -> Seq<char> {
    seq!['\n', '[', 'p', 'a', 'g', 'e', ' '] + dec_str(n) + seq![']', '\n']
}

/// The annotated text blob of the pages from index `i` on: each page's
/// content, with the next page's marker between a page and its successor and
/// nothing after the last page.
pub open spec fn blob_from(pages: Seq<PageView>, i: int) -> Seq<char>
    decreases pages.len() - i,
{
    if i < 0 || i >= pages.len() {
        Seq::empty()
    } else if i == pages.len() - 1 {
        pages[i].content
    } else {
        pages[i].content + page_marker(pages[i + 1].page_number) + blob_from(pages, i + 1)
    }
}

/// The single annotated text blob that a chapter's pages form, the other
/// representation of a chapter body: page contents in order, separated by
/// `\n[page N]\n` markers carrying the next page's number, with no trailing
/// marker after the final page.
pub open spec fn blob_of(pages: Seq<PageView>) -> Seq<char> {
    blob_from(pages, 0)
}

/// Render a chapter's pages as one annotated text blob with inline page
/// markers.
pub fn render_blob(pages: &Vec<Page>) -> (r: String)
    ensures
        r@ == blob_of(page_views(pages@)),
{
    let ghost views = page_views(pages@);
    let mut out = String::new();
    let mut i: usize = 0;
    while i < pages.len()
        invariant
            views == page_views(pages@),
            i <= pages@.len(),
            blob_of(views) == out@ + blob_from(views, i as int),
        decreases pages@.len() - i,
    {
        out.append(pages[i].content.as_str());
        if i + 1 < pages.len() {
            out.append("\n[page ");
            out.append(usize_to_string(pages[i + 1].page_number).as_str());
            out.append("]\n");
            proof {
                reveal_strlit("\n[page ");
                reveal_strlit("]\n");
                assert("\n[page "@ =~= seq!['\n', '[', 'p', 'a', 'g', 'e', ' ']);
                assert("]\n"@ =~= seq![']', '\n']);
            }
        }
        i += 1;
    }
    proof {
        assert(out@ =~= blob_of(views));
    }
    out
}

/// The number of characters in `input`.
pub fn count_characters(input: &str) -> (r: usize)
    ensures
        r == input@.len(),
{
    input.unicode_len()
}

/// The total number of pages over a sequence of chapters.
pub open spec fn total_pages(chs: Seq<ChapterView>) -> int
    decreases chs.len(),
{
    if chs.len() == 0 {
        0
    } else {
        chs[0].pages.len() + total_pages(chs.drop_first())
    }
}

/// The number of pages in the chapters before chapter `c`.
pub open spec fn pages_before(chs: Seq<ChapterView>, c: int) -> int {
    total_pages(chs.take(c))
}

proof fn lemma_total_pages_cons(ch: ChapterView, t: Seq<ChapterView>)
    ensures
        total_pages(seq![ch] + t) == ch.pages.len() + total_pages(t),
{
    assert((seq![ch] + t).drop_first() =~= t);
    assert((seq![ch] + t)[0] == ch);
}

/// Law: global page numbering is continuous. Across the chapters that one
/// segmentation run yields, the page numbers run consecutively from `start`:
/// each chapter continues exactly where the previous chapter stopped, and the
/// returned next page number is `start` plus the total number of pages.
pub proof fn lemma_page_numbering(s: Seq<char>, i: int, start: int)
    requires
        0 <= i,
    ensures
        ({
            let (chs, next) = segment_from(s, i, start);
            &&& next == start + total_pages(chs)
            &&& forall|c: int, p: int|
                0 <= c < chs.len() && 0 <= p < chs[c].pages.len() ==> chs[c].pages[p].page_number
                    == start + pages_before(chs, c) + p
        }),
    decreases s.len() - i,
{
    match find_marker_from(s, i) {
        None => {
            let (chs, next) = segment_from(s, i, start);
            assert(chs.take(0) =~= Seq::<ChapterView>::empty());
        },
        Some(m) => {
            lemma_find_marker_from(s, i);
            lemma_find_char_from(s, m + 4, ']');
            let close = find_char_from(s, m + 4, ']')->Some_0;
            let body_end = match find_marker_from(s, close + 1) {
                None => s.len() as int,
                Some(m2) => m2,
            };
            lemma_find_marker_from(s, close + 1);
            let slices = span_slices(s.subrange(close + 1, body_end), 0);
            let ch = ChapterView {
                chapter: s.subrange(m + 4, close),
                pages: pages_of(slices, start),
                notes: Seq::<char>::empty(),
                quotes: Seq::<Seq<char>>::empty(),
            };
            let rest = segment_from(s, body_end, start + slices.len());
            lemma_page_numbering(s, body_end, start + slices.len());
            let (chs, next) = segment_from(s, i, start);
            assert(chs == seq![ch] + rest.0);
            lemma_total_pages_cons(ch, rest.0);
            assert forall|c: int, p: int|
                0 <= c < chs.len() && 0 <= p < chs[c].pages.len() implies chs[c].pages[p].page_number
                == start + pages_before(chs, c) + p by {
                if c == 0 {
                    assert(chs.take(0) =~= Seq::<ChapterView>::empty());
                    assert(pages_before(chs, 0) == 0);
                    assert(chs[0] == ch);
                } else {
                    assert(chs[c] == rest.0[c - 1]);
                    assert(chs.take(c) =~= seq![ch] + rest.0.take(c - 1));
                    lemma_total_pages_cons(ch, rest.0.take(c - 1));
                    assert(pages_before(chs, c) == slices.len() + pages_before(rest.0, c - 1));
                }
            };
        },
    }
}

/// Law: a sentence boundary inside the window decides the first cut. When the
/// last '.' of the first window sits at position `p`, the first page is the
/// text up to and including that '.'.
pub proof fn lemma_sentence_boundary_cut(s: Seq<char>, p: int)
    requires
        0 <= p < s.len(),
        p < WINDOW as int,
        s[p] == '.',
        forall|j: int| p < j < min(WINDOW as int, s.len() as int) ==> s[j] != '.',
    ensures
        span_slices(s, 0)[0] == s.take(p + 1),
{
    let w = min(WINDOW as int, s.len() as int);
    lemma_last_dot_in(s, 0, w);
    match last_dot_in(s, 0, w) {
        Some(j) => {
            if j < p {
                assert(false);
            }
            if j > p {
                assert(false);
            }
            assert(cut_at(s, 0) == p + 1);
        },
        None => {
            assert(s[p] != '.');
            assert(false);
        },
    }
    assert(span_slices(s, 0)[0] == s.subrange(0, p + 1));
    assert(s.subrange(0, p + 1) =~= s.take(p + 1));
}

/// Law: with no sentence terminator in the window, the cut falls exactly at
/// the window limit.
pub proof fn lemma_window_cut(s: Seq<char>)
    requires
        s.len() >= WINDOW as int,
        forall|j: int| 0 <= j < WINDOW as int ==> s[j] != '.',
    ensures
        span_slices(s, 0)[0] == s.take(WINDOW as int),
{
    let w = min(WINDOW as int, s.len() as int);
    lemma_last_dot_in(s, 0, w);
    match last_dot_in(s, 0, w) {
        Some(j) => {
            assert(false);
        },
        None => {},
    }
    assert(cut_at(s, 0) == WINDOW as int);
    assert(span_slices(s, 0)[0] == s.subrange(0, WINDOW as int));
    assert(s.subrange(0, WINDOW as int) =~= s.take(WINDOW as int));
}

} // verus!
