//! Project Gutenberg: reading its search page, and the addresses it serves
//! books from.
use vstd::prelude::*;

use crate::encode::{url_encode, url_encoded};
use crate::filenames::{sanitize_filename, sanitized};
use crate::html::{
    element_text, select_within, selected_within, text_of, ElementView, HtmlElement,
};
use crate::pattern::{capture_group, regex_capture};
use crate::text::{append_str, chars_of, owned, string_of, trim, trim_chars};
use crate::types::{BookResult, BookView};

verus! {

/// The pattern that reads a book number out of a link.
pub open spec fn ebook_id_pattern() -> Seq<char> {
    "/ebooks/(\\d+)"@
}

/// The trimmed text of the first of `els`, if there is one.
pub open spec fn first_text(els: Seq<ElementView>) -> Option<Seq<char>> {
    if els.len() > 0 {
        Some(trim(element_text(els[0])))
    } else {
        None
    }
}

/// The book number in the first of `links` whose `href` holds one.
pub open spec fn ebook_id(links: Seq<ElementView>) -> Option<Seq<char>>
    decreases links.len(),
{
    if links.len() == 0 {
        None
    } else {
        match links[0].0 {
            Some(h) => match regex_capture(ebook_id_pattern(), h, 1) {
                Some(id) => Some(id),
                None => ebook_id(links.drop_first()),
            },
            None => ebook_id(links.drop_first()),
        }
    }
}

/// The book that one search result describes, given the `span.title`,
/// `span.subtitle` and `a` elements inside it: none when the title is empty
/// or no link names a book number; the author is `Unknown` when there is no
/// subtitle.
pub open spec fn gutenberg_entry(
    titles: Seq<ElementView>,
    subtitles: Seq<ElementView>,
    links: Seq<ElementView>,
) -> Option<BookView> {
    let title = match first_text(titles) {
        Some(t) => t,
        None => Seq::empty(),
    };
    if title.len() == 0 {
        None
    } else {
        let author = match first_text(subtitles) {
            Some(a) => a,
            None => "Unknown"@,
        };
        match ebook_id(links) {
            Some(id) => Some(
                BookView {
                    id: id,
                    title: title,
                    author: author,
                    format: "epub"@,
                    size: "~1 MB"@,
                    provider: "gutenberg"@,
                    download_id: id,
                },
            ),
            None => None,
        }
    }
}

/// Whether a link's `href` names a book number.
pub open spec fn names_ebook(e: ElementView) -> bool {
    e.0 is Some && regex_capture(ebook_id_pattern(), e.0->Some_0, 1) is Some
}

/// The book number of a result is the one named by the first of its links
/// whose `href` names one; it has none only when no link does.
pub proof fn lemma_ebook_id_first(links: Seq<ElementView>)
    ensures
        forall|k: int|
            0 <= k < links.len() && names_ebook(#[trigger] links[k]) && (forall|j: int|
                0 <= j < k ==> !names_ebook(#[trigger] links[j])) ==> ebook_id(links)
                == regex_capture(ebook_id_pattern(), links[k].0->Some_0, 1),
        (forall|j: int| 0 <= j < links.len() ==> !names_ebook(#[trigger] links[j]))
            <==> ebook_id(links) is None,
    decreases links.len(),
{
    if links.len() > 0 {
        let rest = links.drop_first();
        lemma_ebook_id_first(rest);
        assert forall|k: int|
            0 <= k < links.len() && names_ebook(#[trigger] links[k]) && (forall|j: int|
                0 <= j < k ==> !names_ebook(#[trigger] links[j])) implies ebook_id(links)
            == regex_capture(ebook_id_pattern(), links[k].0->Some_0, 1) by {
            if k > 0 {
                assert(!names_ebook(links[0]));
                assert(rest[k - 1] == links[k]);
                assert forall|j: int| 0 <= j < k - 1 implies !names_ebook(#[trigger] rest[j]) by {
                    assert(rest[j] == links[j + 1]);
                }
            }
        }
        if ebook_id(links) is None {
            assert(!names_ebook(links[0]));
            assert forall|j: int| 0 <= j < links.len() implies !names_ebook(
                #[trigger] links[j],
            ) by {
                if j > 0 {
                    assert(rest[j - 1] == links[j]);
                }
            }
        }
        if forall|j: int| 0 <= j < links.len() ==> !names_ebook(#[trigger] links[j]) {
            assert(!names_ebook(links[0]));
            assert forall|j: int| 0 <= j < rest.len() implies !names_ebook(#[trigger] rest[j]) by {
                assert(rest[j] == links[j + 1]);
            }
        }
    }
}

/// A search result is listed only when its first title, trimmed, is not
/// empty and one of its links names a book number. It is then listed under
/// that trimmed title, by the trimmed text of its first subtitle (`Unknown`
/// when it has none), in format `epub`, with that number as its id and the
/// number it is downloaded by.
pub proof fn lemma_gutenberg_entry(
    titles: Seq<ElementView>,
    subtitles: Seq<ElementView>,
    links: Seq<ElementView>,
)
    ensures
        gutenberg_entry(titles, subtitles, links) is Some <==> (titles.len() > 0 && trim(
            element_text(titles[0]),
        ).len() > 0 && exists|k: int| 0 <= k < links.len() && names_ebook(#[trigger] links[k])),
        gutenberg_entry(titles, subtitles, links) matches Some(b) ==> {
            &&& b.title == trim(element_text(titles[0]))
            &&& b.author == if subtitles.len() > 0 {
                trim(element_text(subtitles[0]))
            } else {
                "Unknown"@
            }
            &&& b.id == b.download_id
            &&& Some(b.id) == ebook_id(links)
            &&& b.format == "epub"@
            &&& b.provider == "gutenberg"@
        },
{
    lemma_ebook_id_first(links);
}

/// The books that the first `n` search results describe, in order.
pub open spec fn gutenberg_books(
    titles: Seq<Seq<ElementView>>,
    subtitles: Seq<Seq<ElementView>>,
    links: Seq<Seq<ElementView>>,
    n: int,
) -> Seq<BookView>
    decreases n,
{
    if n <= 0 {
        Seq::empty()
    } else {
        let prev = gutenberg_books(titles, subtitles, links, n - 1);
        match gutenberg_entry(titles[n - 1], subtitles[n - 1], links[n - 1]) {
            Some(b) => prev.push(b),
            None => prev,
        }
    }
}

/// The smallest of three lengths.
pub open spec fn min3(a: int, b: int, c: int) -> int {
    if a <= b && a <= c {
        a
    } else if b <= c {
        b
    } else {
        c
    }
}

/// `min3` is the least of its three arguments.
pub proof fn lemma_min3(a: int, b: int, c: int)
    ensures
        min3(a, b, c) <= a && min3(a, b, c) <= b && min3(a, b, c) <= c,
        min3(a, b, c) == a || min3(a, b, c) == b || min3(a, b, c) == c,
{
}

/// The trimmed text of the first of `els`.
fn first_trimmed_text(els: &Vec<HtmlElement>) -> (r: Option<Vec<char>>)
    ensures
        r matches Some(t) ==> first_text(els.deep_view()) == Some(t@),
        r is None ==> first_text(els.deep_view()) is None,
{
    if els.len() > 0 {
        let t = text_of(&els[0]);
        Some(trim_chars(&t))
    } else {
        None
    }
}

/// The book number in the first link that holds one.
fn find_ebook_id(links: &Vec<HtmlElement>) -> (r: Option<String>)
    ensures
        r.deep_view() == ebook_id(links.deep_view()),
{
    let ghost lv = links.deep_view();
    let mut i: usize = 0;
    assert(lv.skip(0) =~= lv);
    while i < links.len()
        invariant
            i <= links.len(),
            lv == links.deep_view(),
            ebook_id(lv) == ebook_id(lv.skip(i as int)),
        decreases links.len() - i,
    {
        let ghost rest = lv.skip(i as int);
        assert(rest.drop_first() =~= lv.skip(i + 1));
        assert(rest[0] == links[i as int].deep_view());
        if let Some(h) = &links[i].href {
            let found = capture_group("/ebooks/(\\d+)", h.as_str(), 1);
            if found.is_some() {
                return found;
            }
        }
        i = i + 1;
    }
    assert(lv.skip(links.len() as int) =~= Seq::<ElementView>::empty());
    None
}

/// The book one search result describes (see [`gutenberg_entry`]).
fn gutenberg_book(titles: &Vec<HtmlElement>, subtitles: &Vec<HtmlElement>, links: &Vec<HtmlElement>) -> (r: Option<BookResult>)
    ensures
        r matches Some(b) ==> gutenberg_entry(titles.deep_view(), subtitles.deep_view(), links.deep_view()) == Some(b@),
        r is None ==> gutenberg_entry(titles.deep_view(), subtitles.deep_view(), links.deep_view()) is None,
{
    let title = match first_trimmed_text(titles) {
        Some(t) => t,
        None => Vec::new(),
    };
    if title.len() == 0 {
        return None;
    }
    let author = match first_trimmed_text(subtitles) {
        Some(a) => string_of(&a),
        None => owned("Unknown"),
    };
    match find_ebook_id(links) {
        Some(id) => {
            let b = BookResult {
                id: id.clone(),
                title: string_of(&title),
                author: author,
                format: owned("epub"),
                size: owned("~1 MB"),
                provider: owned("gutenberg"),
                download_id: id,
            };
            Some(b)
        },
        None => None,
    }
}

/// The books that Gutenberg search results describe, given for each result
/// the `span.title`, `span.subtitle` and `a` elements inside it.
pub fn gutenberg_results(
    titles: &Vec<Vec<HtmlElement>>,
    subtitles: &Vec<Vec<HtmlElement>>,
    links: &Vec<Vec<HtmlElement>>,
) -> (r: Vec<BookResult>)
    ensures
        r.deep_view() == gutenberg_books(
            titles.deep_view(),
            subtitles.deep_view(),
            links.deep_view(),
            min3(titles.len() as int, subtitles.len() as int, links.len() as int),
        ),
{
    let n = if titles.len() <= subtitles.len() && titles.len() <= links.len() {
        titles.len()
    } else if subtitles.len() <= links.len() {
        subtitles.len()
    } else {
        links.len()
    };
    let mut r: Vec<BookResult> = Vec::new();
    let mut i: usize = 0;
    while i < n
        invariant
            i <= n <= titles.len(),
            n <= subtitles.len(),
            n <= links.len(),
            r.deep_view() == gutenberg_books(
                titles.deep_view(),
                subtitles.deep_view(),
                links.deep_view(),
                i as int,
            ),
        decreases n - i,
    {
        let ghost before = r.deep_view();
        assert(titles.deep_view()[i as int] == titles[i as int].deep_view());
        assert(subtitles.deep_view()[i as int] == subtitles[i as int].deep_view());
        assert(links.deep_view()[i as int] == links[i as int].deep_view());
        match gutenberg_book(&titles[i], &subtitles[i], &links[i]) {
            Some(b) => {
                r.push(b);
                assert(r.deep_view() =~= before.push(b@));
            },
            None => {},
        }
        i = i + 1;
    }
    r
}

/// The books listed on a Gutenberg search page.
pub fn parse_gutenberg_html(html: &str) -> (r: Vec<BookResult>)
    ensures
        r.deep_view() == gutenberg_books(
            selected_within(html@, "li.booklink"@, "span.title"@),
            selected_within(html@, "li.booklink"@, "span.subtitle"@),
            selected_within(html@, "li.booklink"@, "a"@),
            selected_within(html@, "li.booklink"@, "span.title"@).len() as int,
        ),
{
    let titles = select_within(html, "li.booklink", "span.title");
    let subtitles = select_within(html, "li.booklink", "span.subtitle");
    let links = select_within(html, "li.booklink", "a");
    gutenberg_results(&titles, &subtitles, &links)
}

/// The address of the Gutenberg search for `query`.
pub fn gutenberg_search_url(query: &str) -> (r: String)
    ensures
        r@ == "https://www.gutenberg.org/ebooks/search/?query="@ + url_encoded(query@)
            + "&submit_search=Go%21"@,
{
    let mut out: Vec<char> = Vec::new();
    append_str(&mut out, "https://www.gutenberg.org/ebooks/search/?query=");
    let q = url_encode(query);
    append_str(&mut out, q.as_str());
    append_str(&mut out, "&submit_search=Go%21");
    string_of(&out)
}

/// The address of the EPUB (version 3, with images) of book `id`.
pub fn gutenberg_epub3_url(id: &str) -> (r: String)
    ensures
        r@ == "https://www.gutenberg.org/ebooks/"@ + id@ + ".epub3.images"@,
{
    let mut out: Vec<char> = Vec::new();
    append_str(&mut out, "https://www.gutenberg.org/ebooks/");
    append_str(&mut out, id);
    append_str(&mut out, ".epub3.images");
    string_of(&out)
}

/// The address of the older EPUB (with images) of book `id`, tried when the
/// first one fails.
pub fn gutenberg_epub_url(id: &str) -> (r: String)
    ensures
        r@ == "https://www.gutenberg.org/ebooks/"@ + id@ + ".epub.images"@,
{
    let mut out: Vec<char> = Vec::new();
    append_str(&mut out, "https://www.gutenberg.org/ebooks/");
    append_str(&mut out, id);
    append_str(&mut out, ".epub.images");
    string_of(&out)
}

/// The file name a Gutenberg book is saved under: its title made safe,
/// followed by `.epub`.
pub fn gutenberg_filename(title: &str) -> (r: String)
    ensures
        r@ == trim(sanitized(title@)) + ".epub"@,
{
    let base = sanitize_filename(title);
    let mut out = chars_of(base.as_str());
    append_str(&mut out, ".epub");
    string_of(&out)
}


/// Every book read from a Gutenberg search page has a title, is offered as
/// EPUB by Gutenberg, and is downloaded under the number it is listed under.
pub proof fn lemma_gutenberg_books_shape(
    titles: Seq<Seq<ElementView>>,
    subtitles: Seq<Seq<ElementView>>,
    links: Seq<Seq<ElementView>>,
    n: int,
)
    ensures
        forall|k: int|
            0 <= k < gutenberg_books(titles, subtitles, links, n).len() ==> {
                let b = #[trigger] gutenberg_books(titles, subtitles, links, n)[k];
                &&& b.title.len() > 0
                &&& b.id == b.download_id
                &&& b.format == "epub"@
                &&& b.provider == "gutenberg"@
            },
    decreases n,
{
    if n > 0 {
        lemma_gutenberg_books_shape(titles, subtitles, links, n - 1);
        let prev = gutenberg_books(titles, subtitles, links, n - 1);
        let cur = gutenberg_books(titles, subtitles, links, n);
        assert forall|k: int| 0 <= k < cur.len() implies {
            let b = #[trigger] cur[k];
            &&& b.title.len() > 0
            &&& b.id == b.download_id
            &&& b.format == "epub"@
            &&& b.provider == "gutenberg"@
        } by {
            if k < prev.len() {
                assert(cur[k] == prev[k]);
            }
        }
    }
}

/// Each row that describes a book adds it after those of the rows before;
/// a row that describes none adds nothing. So there are never more books
/// than rows, and when every row describes a book, the books are those of
/// the rows, one for each, in order.
pub proof fn lemma_gutenberg_books_rows(titles: Seq<Seq<ElementView>>, subtitles: Seq<Seq<ElementView>>, links: Seq<Seq<ElementView>>, m: int, n: int)
    requires
        0 <= m <= n,
    ensures
        gutenberg_books(titles, subtitles, links, n).len() <= n,
        (forall|k: int| m <= k < n ==> (#[trigger] gutenberg_entry(titles[k], subtitles[k], links[k])) is None) ==> gutenberg_books(
            titles, subtitles, links,
            n,
        ) == gutenberg_books(titles, subtitles, links, m),
        (forall|k: int| 0 <= k < n ==> (#[trigger] gutenberg_entry(titles[k], subtitles[k], links[k])) is Some) ==> gutenberg_books(titles, subtitles, links, n).len()
            == n && forall|k: int| 0 <= k < n ==> gutenberg_books(titles, subtitles, links, n)[k] == (gutenberg_entry(titles[k], subtitles[k], links[k]))->Some_0,
    decreases n,
{
    if n > 0 {
        if m < n {
            lemma_gutenberg_books_rows(titles, subtitles, links, m, n - 1);
        }
        lemma_gutenberg_books_rows(titles, subtitles, links, n - 1, n - 1);
        if forall|k: int| 0 <= k < n ==> (#[trigger] gutenberg_entry(titles[k], subtitles[k], links[k])) is Some {
            assert forall|k: int| 0 <= k < n - 1 implies (#[trigger] gutenberg_entry(titles[k], subtitles[k], links[k])) is Some by {}
            assert(gutenberg_entry(titles[(n - 1)], subtitles[(n - 1)], links[(n - 1)]) is Some);
            assert forall|k: int| 0 <= k < n implies gutenberg_books(titles, subtitles, links, n)[k] == (gutenberg_entry(titles[k], subtitles[k], links[k]))->Some_0 by {
                if k < n - 1 {
                    assert(gutenberg_books(titles, subtitles, links, n)[k] == gutenberg_books(titles, subtitles, links, n - 1)[k]);
                }
            }
        }
    }
}

} // verus!
