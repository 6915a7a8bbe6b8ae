//! The Internet Archive: reading its search and file listings, and the
//! addresses and file names it uses.
use vstd::prelude::*;

use crate::encode::{extension_of, path_extension, url_encode, url_encoded};
use crate::filenames::{lemma_sanitized_chars, sanitized};
use crate::split::{join, join_strings};
use crate::text::{
    append_str, chars_of, contains, contains_chars, ends_with, ends_with_chars, lowercase,
    owned, string_of, to_lowercase, trim, alphanumeric, is_ws, lemma_trim_start_suffix,
    lemma_trim_end_prefix, lemma_trim_ends, lemma_trim_fixed, trim_start,
};
use crate::types::{BookResult, BookView};
use vstd::arithmetic::power::pow;

pub use crate::filenames::sanitize_filename;

verus! {

/// The largest file, in bytes, that a download takes.
pub const MAX_FILE_SIZE: u64 = 104857600;

/// The `creator` of a search hit: one name or a list of names.
pub enum CreatorField {
    Single(String),
    Multiple(Vec<String>),
}

/// The `format` of a search hit: one format or a list of formats.
pub enum FormatField {
    Single(String),
    Multiple(Vec<String>),
}

/// One hit of an Archive search.
pub struct SearchDoc {
    pub identifier: String,
    pub title: Option<String>,
    pub creator: Option<CreatorField>,
    pub format: Option<FormatField>,
}

/// One file of an Archive item.
pub struct FileEntry {
    pub name: Option<String>,
    pub source: Option<String>,
    pub size: Option<String>,
}

/// The formats of a hit, lower-cased.
pub open spec fn lowered_formats(field: FormatField) -> Seq<Seq<char>> {
    match field {
        FormatField::Single(s) => seq![lowercase(s@)],
        FormatField::Multiple(v) => v.deep_view().map_values(|s: Seq<char>| lowercase(s)),
    }
}

/// Whether one of `fs` mentions `what`.
pub open spec fn any_mentions(fs: Seq<Seq<char>>, what: Seq<char>) -> bool {
    exists|i: int| 0 <= i < fs.len() && contains(#[trigger] fs[i], what)
}

/// The format a hit is offered in: `pdf` when any of its formats mentions
/// PDF or it lists none, otherwise `epub` when any mentions EPUB, otherwise
/// `pdf`.
pub open spec fn detected_format(field: Option<FormatField>) -> Seq<char> {
    match field {
        None => "pdf"@,
        Some(f) => if any_mentions(lowered_formats(f), "pdf"@) {
            "pdf"@
        } else if any_mentions(lowered_formats(f), "epub"@) {
            "epub"@
        } else {
            "pdf"@
        },
    }
}

/// The formats of a hit, lower-cased.
fn formats_lowered(field: &FormatField) -> (r: Vec<Vec<char>>)
    ensures
        r.deep_view() == lowered_formats(*field),
{
    match field {
        FormatField::Single(s) => {
            let mut r: Vec<Vec<char>> = Vec::new();
            let l = to_lowercase(s.as_str());
            r.push(chars_of(l.as_str()));
            assert(r.deep_view() =~~= seq![lowercase(s@)]);
            r
        },
        FormatField::Multiple(v) => {
            let mut r: Vec<Vec<char>> = Vec::new();
            let mut i: usize = 0;
            while i < v.len()
                invariant
                    i <= v.len(),
                    r.len() == i,
                    forall|k: int| 0 <= k < i ==> (#[trigger] r@[k])@ == lowercase(v@[k]@),
                decreases v.len() - i,
            {
                let l = to_lowercase(v[i].as_str());
                r.push(chars_of(l.as_str()));
                i = i + 1;
            }
            assert(r.deep_view() =~~= v.deep_view().map_values(|s: Seq<char>| lowercase(s)));
            r
        },
    }
}

/// Whether one of `fs` mentions `what`.
fn mentions(fs: &Vec<Vec<char>>, what: &str) -> (r: bool)
    ensures
        r == any_mentions(fs.deep_view(), what@),
{
    let w = chars_of(what);
    let mut i: usize = 0;
    while i < fs.len()
        invariant
            i <= fs.len(),
            w@ == what@,
            forall|k: int| 0 <= k < i ==> !contains(#[trigger] fs.deep_view()[k], what@),
        decreases fs.len() - i,
    {
        assert(fs.deep_view()[i as int] =~= fs[i as int]@);
        if contains_chars(&fs[i], &w) {
            return true;
        }
        i = i + 1;
    }
    false
}

/// The format a hit is offered in (see [`detected_format`]).
pub fn detect_format(field: &Option<FormatField>) -> (r: String)
    ensures
        r@ == detected_format(*field),
{
    match field {
        None => owned("pdf"),
        Some(f) => {
            let fs = formats_lowered(f);
            if mentions(&fs, "pdf") {
                owned("pdf")
            } else if mentions(&fs, "epub") {
                owned("epub")
            } else {
                owned("pdf")
            }
        },
    }
}

/// A detected format is always `pdf` or `epub`.
pub proof fn lemma_detected_format_known(field: Option<FormatField>)
    ensures
        detected_format(field) == "pdf"@ || detected_format(field) == "epub"@,
{
}

/// A hit is offered as `pdf` when it lists no format or when any of its
/// formats, in any letter case, mentions `pdf`; otherwise as `epub` when any
/// mentions `epub`; otherwise as `pdf`.
pub proof fn lemma_detected_format(field: Option<FormatField>)
    ensures
        field is None ==> detected_format(field) == "pdf"@,
        field matches Some(FormatField::Single(f)) ==> detected_format(field) == if contains(
            lowercase(f@),
            "pdf"@,
        ) {
            "pdf"@
        } else if contains(lowercase(f@), "epub"@) {
            "epub"@
        } else {
            "pdf"@
        },
        field matches Some(FormatField::Multiple(v)) ==> {
            let fs = v.deep_view();
            &&& (exists|i: int| 0 <= i < fs.len() && contains(lowercase(#[trigger] fs[i]), "pdf"@))
                ==> detected_format(field) == "pdf"@
            &&& ((forall|i: int|
                0 <= i < fs.len() ==> !contains(lowercase(#[trigger] fs[i]), "pdf"@)) && exists|
                i: int|
                0 <= i < fs.len() && contains(lowercase(#[trigger] fs[i]), "epub"@))
                ==> detected_format(field) == "epub"@
            &&& (forall|i: int|
                0 <= i < fs.len() ==> !contains(lowercase(#[trigger] fs[i]), "pdf"@) && !contains(
                    lowercase(fs[i]),
                    "epub"@,
                )) ==> detected_format(field) == "pdf"@
        },
{
    match field {
        Some(FormatField::Single(f)) => {
            let ls = lowered_formats(FormatField::Single(f));
            assert(ls[0] == lowercase(f@));
            if contains(lowercase(f@), "pdf"@) {
                assert(contains(ls[0], "pdf"@));
            }
            if contains(lowercase(f@), "epub"@) {
                assert(contains(ls[0], "epub"@));
            }
        },
        Some(FormatField::Multiple(v)) => {
            let fs = v.deep_view();
            let ls = lowered_formats(FormatField::Multiple(v));
            assert forall|i: int| 0 <= i < fs.len() implies #[trigger] ls[i] == lowercase(fs[i]) by {}
            if exists|i: int| 0 <= i < fs.len() && contains(lowercase(#[trigger] fs[i]), "pdf"@) {
                let i = choose|i: int| 0 <= i < fs.len() && contains(lowercase(#[trigger] fs[i]), "pdf"@);
                assert(contains(ls[i], "pdf"@));
            }
            if exists|i: int| 0 <= i < fs.len() && contains(lowercase(#[trigger] fs[i]), "epub"@) {
                let i = choose|i: int| 0 <= i < fs.len() && contains(lowercase(#[trigger] fs[i]), "epub"@);
                assert(contains(ls[i], "epub"@));
            }
        },
        None => {},
    }
}

/// The book that one search hit describes: its title (the identifier when it
/// has none), its creators joined by `, ` (`Unknown` when there are none) and
/// its detected format.
pub open spec fn archive_book(doc: SearchDoc) -> BookView {
    BookView {
        id: doc.identifier@,
        title: match doc.title {
            Some(t) => t@,
            None => doc.identifier@,
        },
        author: match doc.creator {
            Some(CreatorField::Single(s)) => s@,
            Some(CreatorField::Multiple(v)) => join(v.deep_view(), ", "@),
            None => "Unknown"@,
        },
        format: detected_format(doc.format),
        size: "unknown"@,
        provider: "archive"@,
        download_id: doc.identifier@,
    }
}

/// The book that one search hit describes (see [`archive_book`]).
pub fn archive_result(doc: &SearchDoc) -> (r: BookResult)
    ensures
        r@ == archive_book(*doc),
{
    let title = match &doc.title {
        Some(t) => t.clone(),
        None => doc.identifier.clone(),
    };
    let author = match &doc.creator {
        Some(CreatorField::Single(s)) => s.clone(),
        Some(CreatorField::Multiple(v)) => {
            let j = join_strings(v, ", ");
            string_of(&j)
        },
        None => owned("Unknown"),
    };
    BookResult {
        id: doc.identifier.clone(),
        title: title,
        author: author,
        format: detect_format(&doc.format),
        size: owned("unknown"),
        provider: owned("archive"),
        download_id: doc.identifier.clone(),
    }
}

/// The books that Archive search hits describe, one for each hit, in order.
pub fn archive_results(docs: &Vec<SearchDoc>) -> (r: Vec<BookResult>)
    ensures
        r.deep_view() == docs@.map_values(|d: SearchDoc| archive_book(d)),
{
    let mut r: Vec<BookResult> = Vec::new();
    let mut i: usize = 0;
    while i < docs.len()
        invariant
            i <= docs.len(),
            r.deep_view() == docs@.take(i as int).map_values(|d: SearchDoc| archive_book(d)),
        decreases docs.len() - i,
    {
        let ghost before = r.deep_view();
        let b = archive_result(&docs[i]);
        r.push(b);
        assert(r.deep_view() =~= before.push(b@));
        assert(docs@.take(i + 1).map_values(|d: SearchDoc| archive_book(d)) =~= docs@.take(
            i as int,
        ).map_values(|d: SearchDoc| archive_book(d)).push(archive_book(docs@[i as int])));
        i = i + 1;
    }
    assert(docs@.take(docs.len() as int) =~= docs@);
    r
}

/// A hit that has a title is listed under it; its identifier stands in for
/// the title only when it has none. Every hit gives one book, in order.
pub proof fn lemma_archive_titles(docs: Seq<SearchDoc>)
    ensures
        ({
            let books = docs.map_values(|d: SearchDoc| archive_book(d));
            &&& books.len() == docs.len()
            &&& forall|i: int|
                0 <= i < docs.len() && (#[trigger] docs[i]).title is Some ==> books[i].title
                    == docs[i].title->Some_0@
            &&& forall|i: int|
                0 <= i < docs.len() && (#[trigger] docs[i]).title is None ==> books[i].title
                    == docs[i].identifier@
            &&& forall|i: int|
                0 <= i < docs.len() ==> (#[trigger] docs[i]).identifier@ == books[i].id
                    && books[i].download_id == docs[i].identifier@
        }),
{
}

/// A hit's author is its one creator, or its creators joined by `, `, or
/// `Unknown` when it names none; its size is shown as `unknown`, its source
/// as `archive`, and it is downloaded by its identifier.
pub proof fn lemma_archive_book_fields(doc: SearchDoc)
    ensures
        archive_book(doc).author == match doc.creator {
            Some(CreatorField::Single(s)) => s@,
            Some(CreatorField::Multiple(v)) => join(v.deep_view(), ", "@),
            None => "Unknown"@,
        },
        archive_book(doc).format == detected_format(doc.format),
        archive_book(doc).size == "unknown"@,
        archive_book(doc).provider == "archive"@,
        archive_book(doc).id == doc.identifier@,
        archive_book(doc).download_id == doc.identifier@,
{
}

// ---------------------------------------------------------------------------
// Choosing the file to download
// ---------------------------------------------------------------------------

/// Whether every character of `s` is a decimal digit.
pub open spec fn all_digits(s: Seq<char>) -> bool {
    forall|k: int| 0 <= k < s.len() ==> '0' <= #[trigger] s[k] <= '9'
}

/// The number that the decimal digits `s` write.
pub open spec fn digits_value(s: Seq<char>) -> nat
    decreases s.len(),
{
    if s.len() == 0 {
        0
    } else {
        digits_value(s.drop_last()) * 10 + ((s.last() as nat) - 48) as nat
    }
}

/// The `u64` that `s` writes, as `str::parse::<u64>` reads it: an optional
/// `+` and then at least one decimal digit, with a value that fits.
pub open spec fn parsed_u64(s: Seq<char>) -> Option<u64> {
    let d = if s.len() > 0 && s[0] == '+' {
        s.drop_first()
    } else {
        s
    };
    if d.len() > 0 && all_digits(d) && digits_value(d) <= u64::MAX {
        Some(digits_value(d) as u64)
    } else {
        None
    }
}

/// Reads a `u64` written in decimal (see [`parsed_u64`]).
pub fn parse_u64(s: &str) -> (r: Option<u64>)
    ensures
        r == parsed_u64(s@),
{
    let cs = chars_of(s);
    let start: usize = if cs.len() > 0 && cs[0] == '+' {
        1
    } else {
        0
    };
    let ghost d = cs@.skip(start as int);
    assert(d =~= if s@.len() > 0 && s@[0] == '+' {
        s@.drop_first()
    } else {
        s@
    });
    if start >= cs.len() {
        return None;
    }
    let mut acc: u128 = 0;
    let mut i: usize = start;
    assert(cs@.subrange(start as int, start as int) =~= Seq::<char>::empty());
    while i < cs.len()
        invariant
            start <= i <= cs.len(),
            cs@ == s@,
            d == cs@.skip(start as int),
            d == if s@.len() > 0 && s@[0] == '+' {
                s@.drop_first()
            } else {
                s@
            },
            all_digits(cs@.subrange(start as int, i as int)),
            acc == digits_value(cs@.subrange(start as int, i as int)),
            acc <= u64::MAX,
        decreases cs.len() - i,
    {
        let c = cs[i];
        if c < '0' || c > '9' {
            assert(d[i - start] == c);
            assert(!all_digits(d));
            return None;
        }
        let digit = (c as u32 - 48) as u128;
        let ghost prev = cs@.subrange(start as int, i as int);
        let ghost next = cs@.subrange(start as int, i + 1);
        assert(next.drop_last() =~= prev);
        assert(next.last() == c);
        assert forall|k: int| 0 <= k < next.len() implies '0' <= #[trigger] next[k] <= '9' by {
            if k < prev.len() {
                assert(next[k] == prev[k]);
            }
        }
        acc = acc * 10 + digit;
        i = i + 1;
        assert(acc == digits_value(next));
        if acc > 18446744073709551615u128 {
            proof {
                assert(d.take(i - start) =~= next);
                lemma_digits_value_grows(d, i - start);
            }
            return None;
        }
    }
    assert(cs@.subrange(start as int, cs.len() as int) =~= d);
    Some(acc as u64)
}

/// Decimal digits are read with the usual place values: a digit alone is
/// worth its own value, and the digits `a` followed by the digits `b` are
/// worth `a` times ten to the number of digits in `b`, plus `b`.
pub proof fn lemma_digits_value_places(a: Seq<char>, b: Seq<char>, d: char)
    ensures
        '0' <= d <= '9' ==> digits_value(seq![d]) == d as int - 48,
        digits_value(a + b) == digits_value(a) * pow(10, b.len()) + digits_value(b),
    decreases b.len(),
{
    reveal(pow);
    assert(seq![d].drop_last() =~= Seq::<char>::empty());
    assert(seq![d].last() == d);
    assert(digits_value(Seq::<char>::empty()) == 0);
    if b.len() == 0 {
        assert(a + b =~= a);
        assert(pow(10, 0) == 1);
    } else {
        let b1 = b.drop_last();
        lemma_digits_value_places(a, b1, d);
        assert((a + b).drop_last() =~= a + b1);
        assert((a + b).last() == b.last());
        let x = digits_value(a);
        let y = digits_value(b1);
        let p = pow(10, b1.len());
        assert(pow(10, b.len()) == 10 * p);
        assert((x * p + y) * 10 == x * (10 * p) + y * 10) by (nonlinear_arith);
    }
}

/// Appending digits never makes the value smaller.
pub proof fn lemma_digits_value_grows(s: Seq<char>, k: int)
    requires
        0 <= k <= s.len(),
        all_digits(s.take(k)),
    ensures
        all_digits(s) ==> digits_value(s.take(k)) <= digits_value(s),
    decreases s.len() - k,
{
    if k < s.len() {
        if all_digits(s) {
            assert(all_digits(s.take(k + 1)));
            lemma_digits_value_grows(s, k + 1);
            assert(s.take(k + 1).drop_last() =~= s.take(k));
        }
    } else {
        assert(s.take(k) =~= s);
    }
}

/// Whether a file can be downloaded: its name ends in `.pdf` (in any case)
/// and its size, where it reads as a number, is at most [`MAX_FILE_SIZE`].
pub open spec fn is_pdf_candidate(f: FileEntry) -> bool {
    &&& match f.name {
        Some(n) => ends_with(lowercase(n@), ".pdf"@),
        None => false,
    }
    &&& match f.size {
        Some(s) => match parsed_u64(s@) {
            Some(v) => v <= MAX_FILE_SIZE,
            None => true,
        },
        None => true,
    }
}

/// Whether a file is the item's original upload.
pub open spec fn is_original(f: FileEntry) -> bool {
    match f.source {
        Some(s) => s@ == "original"@,
        None => false,
    }
}

/// The first index at or after `from` of a candidate (an original one when
/// `original` is set).
pub open spec fn first_candidate_from(files: Seq<FileEntry>, original: bool, from: int) -> Option<
    int,
>
    decreases files.len() - from,
{
    if from < 0 || from >= files.len() {
        None
    } else if is_pdf_candidate(files[from]) && (!original || is_original(files[from])) {
        Some(from)
    } else {
        first_candidate_from(files, original, from + 1)
    }
}

/// The file to download: the first original candidate, or else the first
/// candidate (what `min_by_key` on "original first" picks).
pub open spec fn preferred_pdf(files: Seq<FileEntry>) -> Option<int> {
    match first_candidate_from(files, true, 0) {
        Some(i) => Some(i),
        None => first_candidate_from(files, false, 0),
    }
}

/// Whether `f` can be downloaded (see [`is_pdf_candidate`]).
fn pdf_candidate(f: &FileEntry) -> (r: bool)
    ensures
        r == is_pdf_candidate(*f),
{
    let named = match &f.name {
        Some(n) => {
            let low = to_lowercase(n.as_str());
            let lc = chars_of(low.as_str());
            ends_with_chars(&lc, &chars_of(".pdf"))
        },
        None => false,
    };
    if !named {
        return false;
    }
    match &f.size {
        Some(s) => match parse_u64(s.as_str()) {
            Some(v) => v <= MAX_FILE_SIZE,
            None => true,
        },
        None => true,
    }
}

/// Whether `f` is an original upload.
fn original_upload(f: &FileEntry) -> (r: bool)
    ensures
        r == is_original(*f),
{
    match &f.source {
        Some(s) => {
            let o = owned("original");
            *s == o
        },
        None => false,
    }
}

/// The first candidate (an original one when `original` is set).
fn first_candidate(files: &Vec<FileEntry>, original: bool) -> (r: Option<usize>)
    ensures
        r matches Some(i) ==> i < files.len() && first_candidate_from(files@, original, 0) == Some(
            i as int,
        ),
        r is None ==> first_candidate_from(files@, original, 0) is None,
{
    let mut i: usize = 0;
    while i < files.len()
        invariant
            i <= files.len(),
            first_candidate_from(files@, original, 0) == first_candidate_from(
                files@,
                original,
                i as int,
            ),
        decreases files.len() - i,
    {
        if pdf_candidate(&files[i]) && (!original || original_upload(&files[i])) {
            return Some(i);
        }
        i = i + 1;
    }
    None
}

/// The index of the file to download (see [`preferred_pdf`]).
pub fn select_pdf_file(files: &Vec<FileEntry>) -> (r: Option<usize>)
    ensures
        r matches Some(i) ==> i < files.len() && preferred_pdf(files@) == Some(i as int),
        r is None ==> preferred_pdf(files@) is None,
{
    match first_candidate(files, true) {
        Some(i) => Some(i),
        None => first_candidate(files, false),
    }
}

/// What `first_candidate_from` finds is a candidate, and the first one.
pub proof fn lemma_first_candidate(files: Seq<FileEntry>, original: bool, from: int)
    requires
        0 <= from,
    ensures
        first_candidate_from(files, original, from) matches Some(i) ==> {
            &&& from <= i < files.len()
            &&& is_pdf_candidate(files[i])
            &&& (original ==> is_original(files[i]))
            &&& forall|j: int|
                from <= j < i ==> !(is_pdf_candidate(#[trigger] files[j]) && (!original
                    || is_original(files[j])))
        },
        first_candidate_from(files, original, from) is None ==> forall|j: int|
            from <= j < files.len() ==> !(is_pdf_candidate(#[trigger] files[j]) && (!original
                || is_original(files[j]))),
    decreases files.len() - from,
{
    if from < files.len() {
        lemma_first_candidate(files, original, from + 1);
    }
}

/// The chosen file can be downloaded; when any original upload can, the
/// chosen one is the first such; otherwise it is the first file that can.
/// None is chosen only when no file can be downloaded.
pub proof fn lemma_preferred_pdf(files: Seq<FileEntry>)
    ensures
        preferred_pdf(files) matches Some(i) ==> 0 <= i < files.len() && is_pdf_candidate(
            files[i],
        ),
        (exists|j: int| 0 <= j < files.len() && is_pdf_candidate(files[j]) && is_original(files[j]))
            ==> (preferred_pdf(files) matches Some(i) && is_original(files[i]) && forall|j: int|
            0 <= j < i ==> !(is_pdf_candidate(#[trigger] files[j]) && is_original(files[j]))),
        preferred_pdf(files) is None <==> forall|j: int|
            0 <= j < files.len() ==> !is_pdf_candidate(#[trigger] files[j]),
{
    lemma_first_candidate(files, true, 0);
    lemma_first_candidate(files, false, 0);
}

/// A file whose name ends in `.pdf` in any letter case, and whose size is
/// absent, does not read as a number, or is at most 100 MiB, can be
/// downloaded; and only such a file is ever chosen. So a listing that holds
/// such a file always gives one to download, and a listing of just that
/// file gives its index 0.
pub proof fn lemma_pdf_in_any_case(files: Seq<FileEntry>, k: int)
    requires
        0 <= k < files.len(),
    ensures
        ({
            let f = files[k];
            &&& f.name matches Some(n) && ends_with(lowercase(n@), ".pdf"@)
            &&& (f.size matches Some(sz) ==> (parsed_u64(sz@) matches Some(v) ==> v
                <= 104857600))
        }) ==> preferred_pdf(files) is Some && (files.len() == 1 ==> preferred_pdf(files)
            == Some(0int)),
        preferred_pdf(files) matches Some(i) ==> ({
            let f = files[i];
            &&& 0 <= i < files.len()
            &&& f.name matches Some(n) && ends_with(lowercase(n@), ".pdf"@)
            &&& (f.size matches Some(sz) ==> (parsed_u64(sz@) matches Some(v) ==> v
                <= 104857600))
        }),
{
    lemma_preferred_pdf(files);
    lemma_first_candidate(files, true, 0);
    lemma_first_candidate(files, false, 0);
}

/// The address of the Archive search for `query` among texts.
pub fn archive_search_url(query: &str) -> (r: String)
    ensures
        r@ == "https://archive.org/advancedsearch.php?q="@ + url_encoded(query@)
            + "+AND+mediatype:texts&fl=identifier,title,creator,format&rows=10&output=json"@,
{
    let mut out: Vec<char> = Vec::new();
    append_str(&mut out, "https://archive.org/advancedsearch.php?q=");
    let q = url_encode(query);
    append_str(&mut out, q.as_str());
    append_str(&mut out, "+AND+mediatype:texts&fl=identifier,title,creator,format&rows=10&output=json");
    string_of(&out)
}

/// The address of the file listing of the item `identifier`.
pub fn archive_metadata_url(identifier: &str) -> (r: String)
    ensures
        r@ == "https://archive.org/metadata/"@ + identifier@ + "/files"@,
{
    let mut out: Vec<char> = Vec::new();
    append_str(&mut out, "https://archive.org/metadata/");
    append_str(&mut out, identifier);
    append_str(&mut out, "/files");
    string_of(&out)
}

/// The address of the file `name` of the item `identifier`.
pub fn archive_download_url(identifier: &str, name: &str) -> (r: String)
    ensures
        r@ == "https://archive.org/download/"@ + identifier@ + "/"@ + url_encoded(name@),
{
    let mut out: Vec<char> = Vec::new();
    append_str(&mut out, "https://archive.org/download/");
    append_str(&mut out, identifier);
    append_str(&mut out, "/");
    let n = url_encode(name);
    append_str(&mut out, n.as_str());
    string_of(&out)
}

/// The file name an Archive book is saved under: its title made safe, a dot
/// and the extension of the downloaded file (`pdf` when it has none).
pub open spec fn archive_output_name(title: Seq<char>, file_name: Seq<char>) -> Seq<char> {
    trim(sanitized(title)) + seq!['.'] + match path_extension(file_name) {
        Some(e) => e,
        None => "pdf"@,
    }
}

/// An Archive book is saved as `stem.ext`: `ext` is the extension of the
/// downloaded file, or `pdf` when it has none; the stem neither starts nor
/// ends with whitespace and holds only letters, digits, spaces, `-` and `_`;
/// a title that already is such a stem is the stem itself.
pub proof fn lemma_archive_output_name(title: Seq<char>, file_name: Seq<char>)
    ensures
        ({
            let stem = trim(sanitized(title));
            &&& archive_output_name(title, file_name) == stem + seq!['.'] + match path_extension(
                file_name,
            ) {
                Some(e) => e,
                None => "pdf"@,
            }
            &&& stem.len() > 0 ==> !is_ws(stem[0]) && !is_ws(stem.last())
            &&& forall|i: int|
                0 <= i < stem.len() ==> alphanumeric(#[trigger] stem[i]) || stem[i] == ' '
                    || stem[i] == '-' || stem[i] == '_'
            &&& (((title.len() > 0 ==> !is_ws(title[0]) && !is_ws(title.last())) && forall|i: int|
                0 <= i < title.len() ==> alphanumeric(#[trigger] title[i]) || title[i] == ' '
                    || title[i] == '-' || title[i] == '_') ==> stem == title)
        }),
{
    let safe = sanitized(title);
    let stem = trim(safe);
    lemma_sanitized_chars(title);
    lemma_trim_start_suffix(safe);
    lemma_trim_end_prefix(trim_start(safe));
    lemma_trim_ends(safe);
    let off = safe.len() - trim_start(safe).len();
    assert forall|i: int| 0 <= i < stem.len() implies alphanumeric(#[trigger] stem[i]) || stem[i]
        == ' ' || stem[i] == '-' || stem[i] == '_' by {
        assert(stem[i] == trim_start(safe)[i]);
        assert(trim_start(safe)[i] == safe[off + i]);
    }
    if (title.len() > 0 ==> !is_ws(title[0]) && !is_ws(title.last())) && forall|i: int|
        0 <= i < title.len() ==> alphanumeric(#[trigger] title[i]) || title[i] == ' ' || title[i]
            == '-' || title[i] == '_' {
        assert(safe =~= title);
        lemma_trim_fixed(title);
    }
}

/// The file name an Archive book is saved under (see [`archive_output_name`]).
pub fn archive_output_filename(title: &str, file_name: &str) -> (r: String)
    ensures
        r@ == archive_output_name(title@, file_name@),
{
    let safe = sanitize_filename(title);
    let mut out = chars_of(safe.as_str());
    append_str(&mut out, ".");
    match extension_of(file_name) {
        Some(e) => append_str(&mut out, e.as_str()),
        None => append_str(&mut out, "pdf"),
    }
    proof {
        reveal_strlit(".");
    }
    assert(out@ =~= archive_output_name(title@, file_name@));
    string_of(&out)
}

/// What downloading an Archive book takes: the address of the chosen file and
/// the name to save it under, or why there is nothing to download.
pub fn archive_download_plan(book: &BookResult, files: &Vec<FileEntry>) -> (r: Result<
    (String, String),
    String,
>)
    ensures
        match preferred_pdf(files@) {
            Some(i) => match files@[i].name {
                Some(n) => r matches Ok((url, name)) && url@ == "https://archive.org/download/"@
                    + book@.download_id + "/"@ + url_encoded(n@) && name@ == archive_output_name(
                    book@.title,
                    n@,
                ),
                None => false,
            },
            None => r matches Err(msg) && msg@ == "No downloadable PDF found for this item"@,
        },
{
    match select_pdf_file(files) {
        Some(i) => {
            proof {
                lemma_preferred_pdf(files@);
            }
            match &files[i].name {
                Some(n) => {
                    let url = archive_download_url(book.download_id.as_str(), n.as_str());
                    let name = archive_output_filename(book.title.as_str(), n.as_str());
                    Ok((url, name))
                },
                None => Err(owned("No downloadable PDF found for this item")),
            }
        },
        None => Err(owned("No downloadable PDF found for this item")),
    }
}

} // verus!
