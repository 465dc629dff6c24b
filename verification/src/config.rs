//! Explicit configuration for building a record's metadata: every field is an
//! optional string with a documented default, comma-separated values become
//! ordered lists, and a content-derived identifier is computed by hashing the
//! title, the authors and the current timestamp.

use sha2::Digest;
use vstd::prelude::*;
use vstd::string::StrSliceExecFns;
use vstd::string::StringExecFns;

use crate::book::BookMetadata;
use crate::envelope::{hex_encode, hex_of, lemma_hex_round_trip};
use crate::segment::{find_char, find_char_from, lemma_find_char_from};

verus! {

/// The views of a list of strings.
pub open spec fn str_views(v: Seq<String>) -> Seq<Seq<char>> {
    Seq::new(v.len(), |i: int| v[i]@)
}

/// The comma-separated fields of `s` from position `i` on.
pub open spec fn split_commas_from(s: Seq<char>, i: int) -> Seq<Seq<char>>
    decreases s.len() - i,
    when 0 <= i <= s.len()
    via split_commas_dec
{
    match find_char_from(s, i, ',') {
        None => seq![s.subrange(i, s.len() as int)],
        Some(j) => seq![s.subrange(i, j)] + split_commas_from(s, j + 1),
    }
}

#[via_fn]
proof fn split_commas_dec(s: Seq<char>, i: int) {
    if 0 <= i <= s.len() {
        lemma_find_char_from(s, i, ',');
    }
}

/// The comma-separated fields of `s`, in order. There is always at least one
/// field: an empty string yields one empty field.
pub open spec fn split_commas_spec(s: Seq<char>) -> Seq<Seq<char>> {
    split_commas_from(s, 0)
}

/// Split `s` at every comma, keeping empty fields.
pub fn split_commas(s: &str) -> (r: Vec<String>)
    ensures
        str_views(r@) == split_commas_spec(s@),
{
    let n = s.unicode_len();
    let mut out: Vec<String> = Vec::new();
    let mut pos: usize = 0;
    loop
        invariant_except_break
            split_commas_spec(s@) == str_views(out@) + split_commas_from(s@, pos as int),
        invariant
            pos <= n,
            n == s@.len(),
        ensures
            str_views(out@) == split_commas_spec(s@),
        decreases n - pos,
    {
        let ghost old_out = out@;
        match find_char(s, pos, ',') {
            None => {
                let piece = s.substring_char(pos, n);
                out.push(String::from_str(piece));
                proof {
                    assert(str_views(out@) =~= str_views(old_out).push(
                        s@.subrange(pos as int, n as int),
                    ));
                    assert(str_views(old_out) + split_commas_from(s@, pos as int) =~= str_views(
                        out@,
                    ));
                }
                break ;
            },
            Some(j) => {
                proof {
                    lemma_find_char_from(s@, pos as int, ',');
                }
                let piece = s.substring_char(pos, j);
                out.push(String::from_str(piece));
                proof {
                    assert(str_views(out@) =~= str_views(old_out).push(
                        s@.subrange(pos as int, j as int),
                    ));
                    assert(str_views(old_out) + split_commas_from(s@, pos as int) =~= str_views(
                        out@,
                    ) + split_commas_from(s@, j as int + 1));
                }
                pos = j + 1;
            },
        }
    }
    out
}

/// Whether `c` is a decimal digit.
pub open spec fn is_digit(c: char) -> bool {
    48 <= c as u32 <= 57
}

/// The value of a decimal digit.
pub open spec fn digit_val(c: char) -> int {
    c as u32 - 48
}

/// The value of a string of decimal digits.
pub open spec fn dec_val(s: Seq<char>) -> int
    decreases s.len(),
{
    if s.len() == 0 {
        0
    } else {
        dec_val(s.drop_last()) * 10 + digit_val(s.last())
    }
}

/// The digits of `s` after an optional leading '+'.
pub open spec fn digits_part(s: Seq<char>) -> Seq<char> {
    if s.len() > 0 && s[0] == '+' {
        s.drop_first()
    } else {
        s
    }
}

/// Whether `s` is a numeral a u32 can hold: an optional '+', then at least
/// one decimal digit, with a value of at most `u32::MAX`.
pub open spec fn is_u32_numeral(s: Seq<char>) -> bool {
    &&& digits_part(s).len() > 0
    &&& forall|i: int| 0 <= i < digits_part(s).len() ==> is_digit(#[trigger] digits_part(s)[i])
    &&& dec_val(digits_part(s)) <= u32::MAX as int
}

/// What parsing `s` as a u32 yields: its value when it is a numeral, and 0
/// for anything unparseable.
pub open spec fn parse_u32_model(s: Seq<char>) -> u32 {
    if is_u32_numeral(s) {
        dec_val(digits_part(s)) as u32
    } else {
        0
    }
}

/// Parse a decimal numeral, substituting 0 for anything unparseable.
pub fn parse_u32_or_zero(s: &str) -> (r: u32)
    ensures
        r == parse_u32_model(s@),
{
    let n = s.unicode_len();
    let start: usize = if n > 0 && s.get_char(0) == '+' {
        1
    } else {
        0
    };
    let ghost d = digits_part(s@);
    proof {
        assert(d =~= s@.subrange(start as int, n as int));
    }
    if n == start {
        return 0;
    }
    let mut i = start;
    let mut val: u32 = 0;
    let mut over: bool = false;
    while i < n
        invariant
            n == s@.len(),
            start <= i <= n,
            d == digits_part(s@),
            d =~= s@.subrange(start as int, n as int),
            forall|j: int| 0 <= j < i - start ==> is_digit(#[trigger] d[j]),
            !over ==> val as int == dec_val(d.take(i - start)),
            over ==> dec_val(d.take(i - start)) > u32::MAX as int,
        decreases n - i,
    {
        let c = s.get_char(i);
        let v = c as u32;
        if v < 48 || v > 57 {
            proof {
                assert(!is_digit(d[i - start]));
            }
            return 0;
        }
        let dv = v - 48;
        let ghost k = i - start;
        proof {
            assert(d.take(k + 1).drop_last() =~= d.take(k));
            assert(d.take(k + 1).last() == d[k]);
            assert(dec_val(d.take(k + 1)) == dec_val(d.take(k)) * 10 + digit_val(d[k]));
        }
        if over {
        } else if val > (u32::MAX - dv) / 10 {
            over = true;
            proof {
                assert(val as int * 10 + dv as int > u32::MAX as int);
            }
        } else {
            proof {
                assert(val as int * 10 <= ((u32::MAX - dv) / 10) as int * 10);
            }
            val = val * 10 + dv;
        }
        i += 1;
    }
    proof {
        assert(d.take(n - start) =~= d);
    }
    if over {
        0
    } else {
        val
    }
}

/// The SHA-256 digest of the UTF-8 bytes of a string; a fixed function of the
/// characters alone.
pub uninterp spec fn sha256_of(s: Seq<char>) -> Seq<u8>;

/// Relies on sha2's Sha256 (new, update, finalize): a 32-byte digest of the
/// string's bytes, determined by the input characters alone.
#[verifier::external_body]
fn sha256_str(s: &str) -> (r: Vec<u8>)
    ensures
        r@ == sha256_of(s@),
        r@.len() == 32,
{
    let mut hasher = sha2::Sha256::new();
    hasher.update(s.as_bytes());
    hasher.finalize().to_vec()
}

/// Relies on chrono's Utc::now().to_rfc3339() for the current timestamp. The
/// result depends on the clock, so nothing is assumed of it.
#[verifier::external_body]
fn now_rfc3339() -> (r: String) {
    chrono::Utc::now().to_rfc3339()
}

/// The identifier a digest yields: its first 13 bytes, hex-encoded.
pub fn isbn_of_digest(digest: &Vec<u8>) -> (r: String)
    requires
        digest@.len() >= 13,
    ensures
        r@ == hex_of(digest@.take(13)),
{
    let mut prefix: Vec<u8> = Vec::new();
    let mut i: usize = 0;
    while i < 13
        invariant
            i <= 13,
            digest@.len() >= 13,
            prefix@.len() == i,
            forall|j: int| 0 <= j < i ==> prefix@[j] == digest@[j],
        decreases 13 - i,
    {
        prefix.push(digest[i]);
        i += 1;
    }
    proof {
        assert(prefix@ =~= digest@.take(13));
    }
    hex_encode(prefix.as_slice())
}

/// A content-derived identifier: the SHA-256 digest of the title, the
/// authors and the current timestamp, truncated to its first 13 bytes and
/// hex-encoded (26 lowercase digits).
pub fn generate_isbn(title: &str, authors: &str) -> (r: String)
    ensures
        exists|ts: Seq<char>|
            r@ == hex_of(#[trigger] sha256_of(title@ + authors@ + ts).take(13)),
        r@.len() == 26,
{
    let ts = now_rfc3339();
    let mut input = String::from_str(title);
    input.append(authors);
    input.append(ts.as_str());
    let digest = sha256_str(input.as_str());
    let r = isbn_of_digest(&digest);
    proof {
        assert(input@ == title@ + authors@ + ts@);
        lemma_hex_round_trip(digest@.take(13));
        assert(r@ == hex_of(sha256_of(title@ + authors@ + ts@).take(13)));
    }
    r
}

/// Configuration for a record's metadata: every field is optional, and an
/// absent field falls back to its documented default — an empty string for
/// most, a production label, a placeholder publication date and a format
/// label for the three named ones, and 0 for the numeric fields. The
/// list-valued fields hold comma-separated values.
pub struct BookConfig {
    pub title: Option<String>,
    pub authors: Option<String>,
    pub production: Option<String>,
    pub subtitle: Option<String>,
    pub page_index: Option<String>,
    pub publisher: Option<String>,
    pub publication_date: Option<String>,
    pub language: Option<String>,
    pub genres: Option<String>,
    pub tags: Option<String>,
    pub edition: Option<String>,
    pub description: Option<String>,
    pub table_of_contents: Option<String>,
    pub cover_image_url: Option<String>,
    pub page_count: Option<String>,
    pub notes: Option<String>,
    pub quotes: Option<String>,
    pub references: Option<String>,
    pub keywords: Option<String>,
    pub categories: Option<String>,
    pub illustrator: Option<String>,
    pub editor: Option<String>,
    pub translator: Option<String>,
    pub dedication: Option<String>,
    pub acknowledgments: Option<String>,
    pub introduction: Option<String>,
    pub preface: Option<String>,
    pub appendices: Option<String>,
    pub index_terms: Option<String>,
    pub related_books: Option<String>,
    pub resources: Option<String>,
    pub format: Option<String>,
}

impl BookConfig {
    /// A configuration with every field absent, so that every default
    /// applies.
    pub fn empty() -> (r: BookConfig)
        ensures
            r.title is None,
            r.authors is None,
            r.production is None,
            r.subtitle is None,
            r.page_index is None,
            r.publisher is None,
            r.publication_date is None,
            r.language is None,
            r.genres is None,
            r.tags is None,
            r.edition is None,
            r.description is None,
            r.table_of_contents is None,
            r.cover_image_url is None,
            r.page_count is None,
            r.notes is None,
            r.quotes is None,
            r.references is None,
            r.keywords is None,
            r.categories is None,
            r.illustrator is None,
            r.editor is None,
            r.translator is None,
            r.dedication is None,
            r.acknowledgments is None,
            r.introduction is None,
            r.preface is None,
            r.appendices is None,
            r.index_terms is None,
            r.related_books is None,
            r.resources is None,
            r.format is None,
    {
        BookConfig {
            title: None,
            authors: None,
            production: None,
            subtitle: None,
            page_index: None,
            publisher: None,
            publication_date: None,
            language: None,
            genres: None,
            tags: None,
            edition: None,
            description: None,
            table_of_contents: None,
            cover_image_url: None,
            page_count: None,
            notes: None,
            quotes: None,
            references: None,
            keywords: None,
            categories: None,
            illustrator: None,
            editor: None,
            translator: None,
            dedication: None,
            acknowledgments: None,
            introduction: None,
            preface: None,
            appendices: None,
            index_terms: None,
            related_books: None,
            resources: None,
            format: None,
        }
    }
}

/// The value of an optional string, with the empty string as default.
pub open spec fn or_empty(o: Option<String>) -> Seq<char> {
    match o {
        Some(s) => s@,
        None => Seq::empty(),
    }
}

/// The list that a comma-separated optional field yields.
pub open spec fn split_of(o: Option<String>) -> Seq<Seq<char>> {
    split_commas_spec(or_empty(o))
}

/// The number that a numeric optional field yields.
pub open spec fn num_of(o: Option<String>) -> u32 {
    match o {
        Some(s) => parse_u32_model(s@),
        None => 0u32,
    }
}

fn field_or_empty(o: Option<String>) -> (r: String)
    ensures
        r@ == or_empty(o),
{
    match o {
        Some(s) => s,
        None => String::new(),
    }
}

fn field_split(o: Option<String>) -> (r: Vec<String>)
    ensures
        str_views(r@) == split_of(o),
{
    match o {
        Some(s) => split_commas(s.as_str()),
        None => {
            let r = split_commas("");
            proof {
                reveal_strlit("");
                assert(""@ =~= Seq::<char>::empty());
            }
            r
        },
    }
}

fn field_num(o: Option<String>) -> (r: u32)
    ensures
        r == num_of(o),
{
    match o {
        Some(s) => parse_u32_or_zero(s.as_str()),
        None => 0,
    }
}

/// Build a record's metadata from a configuration, applying the documented
/// default wherever a field is absent: the production label, the placeholder
/// publication date and the format label for their fields, the empty string
/// elsewhere; comma-separated fields become lists; the identifier is derived
/// from the title, the authors and the current timestamp; the record starts
/// with no chapters.
pub fn populate_book_metadata(cfg: BookConfig) -> (r: BookMetadata)
    ensures
        r.title@ == or_empty(cfg.title),
        r.authors@ == or_empty(cfg.authors),
        r.production@ == (match cfg.production {
            Some(s) => s@,
            None => "The Digital Archive"@,
        }),
        r.subtitle@ == or_empty(cfg.subtitle),
        r.page_index == num_of(cfg.page_index),
        exists|ts: Seq<char>|
            r.isbn@ == hex_of(
                #[trigger] sha256_of(or_empty(cfg.title) + or_empty(cfg.authors) + ts).take(13),
            ),
        r.publisher@ == or_empty(cfg.publisher),
        r.publication_date@ == (match cfg.publication_date {
            Some(s) => s@,
            None => "--/--/----"@,
        }),
        r.language@ == or_empty(cfg.language),
        str_views(r.genres@) == split_of(cfg.genres),
        str_views(r.tags@) == split_of(cfg.tags),
        r.edition@ == or_empty(cfg.edition),
        r.description@ == or_empty(cfg.description),
        str_views(r.table_of_contents@) == split_of(cfg.table_of_contents),
        r.cover_image_url@ == or_empty(cfg.cover_image_url),
        r.page_count == num_of(cfg.page_count),
        r.notes@ == or_empty(cfg.notes),
        str_views(r.quotes@) == split_of(cfg.quotes),
        str_views(r.references@) == split_of(cfg.references),
        str_views(r.keywords@) == split_of(cfg.keywords),
        str_views(r.categories@) == split_of(cfg.categories),
        r.illustrator@ == or_empty(cfg.illustrator),
        r.editor@ == or_empty(cfg.editor),
        r.translator@ == or_empty(cfg.translator),
        r.dedication@ == or_empty(cfg.dedication),
        r.acknowledgments@ == or_empty(cfg.acknowledgments),
        r.introduction@ == or_empty(cfg.introduction),
        r.preface@ == or_empty(cfg.preface),
        str_views(r.appendices@) == split_of(cfg.appendices),
        str_views(r.index_terms@) == split_of(cfg.index_terms),
        str_views(r.related_books@) == split_of(cfg.related_books),
        str_views(r.resources@) == split_of(cfg.resources),
        r.format@ == (match cfg.format {
            Some(s) => s@,
            None => "Blockchain"@,
        }),
        r.content@ == Seq::<crate::book::Chapter>::empty(),
        r.total_chapters == 0usize,
{
    let title = field_or_empty(cfg.title);
    let authors = field_or_empty(cfg.authors);
    let isbn = generate_isbn(title.as_str(), authors.as_str());
    BookMetadata {
        production: match cfg.production {
            Some(s) => s,
            None => String::from_str("The Digital Archive"),
        },
        subtitle: field_or_empty(cfg.subtitle),
        page_index: field_num(cfg.page_index),
        isbn,
        publisher: field_or_empty(cfg.publisher),
        publication_date: match cfg.publication_date {
            Some(s) => s,
            None => String::from_str("--/--/----"),
        },
        language: field_or_empty(cfg.language),
        genres: field_split(cfg.genres),
        tags: field_split(cfg.tags),
        edition: field_or_empty(cfg.edition),
        description: field_or_empty(cfg.description),
        table_of_contents: field_split(cfg.table_of_contents),
        cover_image_url: field_or_empty(cfg.cover_image_url),
        page_count: field_num(cfg.page_count),
        notes: field_or_empty(cfg.notes),
        quotes: field_split(cfg.quotes),
        references: field_split(cfg.references),
        keywords: field_split(cfg.keywords),
        modified_date: now_rfc3339(),
        categories: field_split(cfg.categories),
        illustrator: field_or_empty(cfg.illustrator),
        editor: field_or_empty(cfg.editor),
        translator: field_or_empty(cfg.translator),
        dedication: field_or_empty(cfg.dedication),
        acknowledgments: field_or_empty(cfg.acknowledgments),
        introduction: field_or_empty(cfg.introduction),
        preface: field_or_empty(cfg.preface),
        appendices: field_split(cfg.appendices),
        index_terms: field_split(cfg.index_terms),
        related_books: field_split(cfg.related_books),
        resources: field_split(cfg.resources),
        format: match cfg.format {
            Some(s) => s,
            None => String::from_str("Blockchain"),
        },
        content: Vec::new(),
        total_chapters: 0,
        title,
        authors,
    }
}

} // verus!
