//! Library Genesis: reading its search and download pages, and the addresses
//! it uses.
use vstd::prelude::*;

use crate::encode::{url_encode, url_encoded};
use crate::html::{
    href_of, select_elements, select_within, selected, selected_within, ElementView,
    HtmlElement,
};
use crate::pattern::{capture_group, regex_capture, regex_replace_first, replace_first};
use crate::split::{
    join, join_strings, lemma_normalize_two_words, lemma_words_shape, normalize_whitespace,
    normalize_ws,
};
use crate::text::{
    append_chars, append_str, chars_of, contains, contains_chars, find, find_chars, lemma_find,
    is_ws, lowercase, occurs_at,
    lowercase_chars, owned, same_chars, starts_with, starts_with_chars, string_of,
    strip_leading, strip_leading_chars, take_chars, take_prefix, utf8_len, utf8_len_exceeds,
    copy_range,
};
use crate::types::{BookResult, BookView};

verus! {

/// The file formats that a result row can name, in the order they are tried.
pub open spec fn known_extensions() -> Seq<Seq<char>> {
    seq![
        "pdf"@,
        "epub"@,
        "djvu"@,
        "mobi"@,
        "chm"@,
        "azw3"@,
        "fb2"@,
        "doc"@,
        "docx"@,
        "rtf"@,
        "txt"@,
        "lit"@,
        "azw"@,
    ]
}

/// The file formats that a result row can name.
pub fn known_extension_list() -> (v: Vec<&'static str>)
    ensures
        v@.map_values(|s: &'static str| s@) == known_extensions(),
{
    let v = vec![
        "pdf",
        "epub",
        "djvu",
        "mobi",
        "chm",
        "azw3",
        "fb2",
        "doc",
        "docx",
        "rtf",
        "txt",
        "lit",
        "azw",
    ];
    assert(v@.map_values(|s: &'static str| s@) =~= known_extensions());
    v
}

/// The pattern that finds a file size in a cell.
pub open spec fn size_pattern() -> Seq<char> {
    "(\\d+[\\.,]?\\d*)\\s*(kB|KB|Kb|MB|Mb|mB|GB|Gb|gB|bytes?)"@
}

/// The pattern of an ISBN-like tail that is cut off titles.
pub open spec fn isbn_tail_pattern() -> Seq<char> {
    "\\s+\\d{10,13}[;\\s].*$"@
}

/// The MD5 that a link to a download page carries: what follows the first
/// `md5=` in an `href` that points at `ads.php?md5=`.
pub open spec fn md5_in_href(h: Seq<char>) -> Option<Seq<char>> {
    if contains(h, "/ads.php?md5="@) || contains(h, "ads.php?md5="@) {
        match find(h, "md5="@) {
            Some(pos) => Some(h.skip(pos + "md5="@.len())),
            None => None,
        }
    } else {
        None
    }
}

/// The MD5 of the last of `links` that carries one.
pub open spec fn row_md5(links: Seq<ElementView>) -> Option<Seq<char>>
    decreases links.len(),
{
    if links.len() == 0 {
        None
    } else {
        match links.last().0 {
            Some(h) => match md5_in_href(h) {
                Some(m) => Some(m),
                None => row_md5(links.drop_last()),
            },
            None => row_md5(links.drop_last()),
        }
    }
}

/// The text of a table cell: its text nodes joined by spaces, with the
/// whitespace normalised.
pub open spec fn cell_text(e: ElementView) -> Seq<char> {
    normalize_ws(join(e.1, " "@))
}

/// A cell's text nodes are read with a space between each two of them and
/// runs of whitespace made one space: a single word is read as it is, and
/// two words in two text nodes are read with one space between them.
pub proof fn lemma_cell_text_words(e: ElementView, a: Seq<char>, b: Seq<char>)
    requires
        a.len() > 0,
        b.len() > 0,
        forall|i: int| 0 <= i < a.len() ==> !is_ws(#[trigger] a[i]),
        forall|i: int| 0 <= i < b.len() ==> !is_ws(#[trigger] b[i]),
    ensures
        e.1 == seq![a] ==> cell_text(e) == a,
        e.1 == seq![a, b] ==> cell_text(e) == a + seq![' '] + b,
{
    reveal_strlit(" ");
    lemma_words_shape(a);
    if e.1 == seq![a, b] {
        assert(seq![a, b].drop_last() =~= seq![a]);
        assert(seq![a, b].last() == b);
        assert(join(seq![a], " "@) == a);
        assert(" "@ =~= seq![' ']);
        assert(join(seq![a, b], " "@) =~= a + seq![' '] + b);
        lemma_normalize_two_words(a, ' ', b);
    }
}

/// The first of `cells` that takes more than 20 bytes.
pub open spec fn first_long_cell(cells: Seq<Seq<char>>) -> Option<Seq<char>>
    decreases cells.len(),
{
    if cells.len() == 0 {
        None
    } else if utf8_len(cells[0]) > 20 {
        Some(cells[0])
    } else {
        first_long_cell(cells.drop_first())
    }
}

/// The title of a row: the first long cell with an ISBN-like tail cut off and
/// at most 120 characters kept; the first cell when no cell is long.
pub open spec fn row_title(cells: Seq<Seq<char>>) -> Seq<char> {
    match first_long_cell(cells) {
        Some(t) => take_chars(regex_replace_first(isbn_tail_pattern(), t, Seq::empty()), 120),
        None => cells[0],
    }
}

/// The first of `cells` that takes more than one byte and differs from `title`.
pub open spec fn first_author_cell(cells: Seq<Seq<char>>, title: Seq<char>) -> Option<Seq<char>>
    decreases cells.len(),
{
    if cells.len() == 0 {
        None
    } else if cells[0].len() != 0 && utf8_len(cells[0]) > 1 && cells[0] != title {
        Some(cells[0])
    } else {
        first_author_cell(cells.drop_first(), title)
    }
}

/// The author of a row: the first cell after the first one that is more than
/// one byte long and is not the title; empty when there is none.
pub open spec fn row_author(cells: Seq<Seq<char>>, title: Seq<char>) -> Seq<char> {
    match first_author_cell(cells.skip(1), title) {
        Some(a) => a,
        None => Seq::empty(),
    }
}

/// An `href` carries an MD5 exactly when it points at `ads.php?md5=`; the
/// MD5 is then all that follows the first `md5=` in it.
pub proof fn lemma_md5_in_href(h: Seq<char>)
    ensures
        md5_in_href(h) is Some <==> contains(h, "ads.php?md5="@),
        md5_in_href(h) matches Some(m) ==> exists|p: int|
            occurs_at(h, "md5="@, p) && m == h.skip(p + 4) && forall|q: int|
                0 <= q < p ==> !occurs_at(h, "md5="@, q),
{
    reveal_strlit("ads.php?md5=");
    reveal_strlit("/ads.php?md5=");
    reveal_strlit("md5=");
    let a = "ads.php?md5="@;
    let sa = "/ads.php?md5="@;
    let key = "md5="@;
    lemma_find(h, key);
    if contains(h, sa) {
        let i = choose|i: int| occurs_at(h, sa, i);
        assert(sa.subrange(1, 13) =~= a);
        assert(h.subrange(i, i + 13) == sa);
        assert(h.subrange(i + 1, i + 13) =~= h.subrange(i, i + 13).subrange(1, 13));
        assert(occurs_at(h, a, i + 1));
    }
    if contains(h, a) {
        let i = choose|i: int| occurs_at(h, a, i);
        assert(a.subrange(8, 12) =~= key);
        assert(h.subrange(i, i + 12) == a);
        assert(h.subrange(i + 8, i + 12) =~= h.subrange(i, i + 12).subrange(8, 12));
        assert(occurs_at(h, key, i + 8));
    }
    if let Some(m) = md5_in_href(h) {
        let p = find(h, key).unwrap();
        assert(occurs_at(h, key, p) && m == h.skip(p + 4));
    }
}

/// Whether a link carries an MD5 (see [`md5_in_href`]).
pub open spec fn carries_md5(e: ElementView) -> bool {
    e.0 is Some && md5_in_href(e.0->Some_0) is Some
}

/// The MD5 of a row is that of the last of its links that carries one; it
/// has none only when no link does.
#[verifier::rlimit(40)]
pub proof fn lemma_row_md5_last(links: Seq<ElementView>)
    ensures
        forall|k: int|
            0 <= k < links.len() && carries_md5(#[trigger] links[k]) && (forall|j: int|
                k < j < links.len() ==> !carries_md5(#[trigger] links[j])) ==> row_md5(links)
                == md5_in_href(links[k].0->Some_0),
        (forall|j: int| 0 <= j < links.len() ==> !carries_md5(#[trigger] links[j]))
            <==> row_md5(links) is None,
    decreases links.len(),
{
    if links.len() > 0 {
        let rest = links.drop_last();
        let n = links.len() - 1;
        lemma_row_md5_last(rest);
        assert forall|k: int|
            0 <= k < links.len() && carries_md5(#[trigger] links[k]) && (forall|j: int|
                k < j < links.len() ==> !carries_md5(#[trigger] links[j])) implies row_md5(links)
            == md5_in_href(links[k].0->Some_0) by {
            if k < n {
                assert(!carries_md5(links[n]));
                assert(rest[k] == links[k]);
                assert forall|j: int| k < j < rest.len() implies !carries_md5(
                    #[trigger] rest[j],
                ) by {
                    assert(rest[j] == links[j]);
                }
            }
        }
        if row_md5(links) is None {
            assert forall|j: int| 0 <= j < links.len() implies !carries_md5(
                #[trigger] links[j],
            ) by {
                if j < n {
                    assert(rest[j] == links[j]);
                }
            }
        }
        if forall|j: int| 0 <= j < links.len() ==> !carries_md5(#[trigger] links[j]) {
            assert(!carries_md5(links[n]));
            assert forall|j: int| 0 <= j < rest.len() implies !carries_md5(#[trigger] rest[j]) by {
                assert(rest[j] == links[j]);
            }
        }
    }
}

/// The title of a row is taken from its first cell of more than 20 bytes,
/// with an ISBN-like tail cut off and at most 120 characters kept; when no
/// cell is that long, it is the first cell as it is.
pub proof fn lemma_row_title(cells: Seq<Seq<char>>)
    requires
        cells.len() > 0,
    ensures
        forall|k: int|
            0 <= k < cells.len() && utf8_len(#[trigger] cells[k]) > 20 && (forall|j: int|
                0 <= j < k ==> utf8_len(#[trigger] cells[j]) <= 20) ==> row_title(cells) == take_chars(
                regex_replace_first(isbn_tail_pattern(), cells[k], Seq::empty()),
                120,
            ),
        (forall|j: int| 0 <= j < cells.len() ==> utf8_len(#[trigger] cells[j]) <= 20) ==> row_title(
            cells,
        ) == cells[0],
{
    lemma_first_long_cell(cells);
}

/// `first_long_cell` finds the first cell of more than 20 bytes.
proof fn lemma_first_long_cell(cells: Seq<Seq<char>>)
    ensures
        forall|k: int|
            0 <= k < cells.len() && utf8_len(#[trigger] cells[k]) > 20 && (forall|j: int|
                0 <= j < k ==> utf8_len(#[trigger] cells[j]) <= 20) ==> first_long_cell(cells) == Some(cells[k]),
        (forall|j: int| 0 <= j < cells.len() ==> utf8_len(#[trigger] cells[j]) <= 20)
            ==> first_long_cell(cells) is None,
    decreases cells.len(),
{
    if cells.len() > 0 {
        let rest = cells.drop_first();
        lemma_first_long_cell(rest);
        assert forall|k: int|
            0 <= k < cells.len() && utf8_len(#[trigger] cells[k]) > 20 && (forall|j: int|
                0 <= j < k ==> utf8_len(#[trigger] cells[j]) <= 20) implies first_long_cell(cells) == Some(
            cells[k],
        ) by {
            if k > 0 {
                assert(utf8_len(cells[0]) <= 20);
                assert(rest[k - 1] == cells[k]);
                assert forall|j: int| 0 <= j < k - 1 implies utf8_len(rest[j]) <= 20 by {
                    assert(rest[j] == cells[j + 1]);
                }
            }
        }
        if forall|j: int| 0 <= j < cells.len() ==> utf8_len(#[trigger] cells[j]) <= 20 {
            assert(utf8_len(cells[0]) <= 20);
            assert forall|j: int| 0 <= j < rest.len() implies utf8_len(#[trigger] rest[j]) <= 20 by {
                assert(rest[j] == cells[j + 1]);
            }
        }
    }
}

/// Whether a cell can be a row's author: it is more than one byte long and
/// is not the row's title.
#[verifier::opaque]
pub open spec fn author_like(c: Seq<char>, title: Seq<char>) -> bool {
    c.len() > 0 && utf8_len(c) > 1 && c != title
}

/// The author of a row is its first cell after the first one that is more
/// than one byte long and is not the title; it is empty when there is none.
pub proof fn lemma_row_author(cells: Seq<Seq<char>>, title: Seq<char>)
    requires
        cells.len() > 0,
    ensures
        forall|k: int|
            1 <= k < cells.len() && author_like(#[trigger] cells[k], title) && (forall|j: int|
                1 <= j < k ==> !author_like(#[trigger] cells[j], title)) ==> row_author(cells, title)
                == cells[k],
        (forall|j: int| 1 <= j < cells.len() ==> !author_like(#[trigger] cells[j], title))
            ==> row_author(cells, title).len() == 0,
{
    assert forall|k: int|
        1 <= k < cells.len() && author_like(#[trigger] cells[k], title) && (forall|j: int|
            1 <= j < k ==> !author_like(#[trigger] cells[j], title)) implies row_author(cells, title)
        == cells[k] by {
        lemma_first_author_from(cells, title, 1, k);
    }
    if forall|j: int| 1 <= j < cells.len() ==> !author_like(#[trigger] cells[j], title) {
        lemma_no_author_from(cells, title, 1);
    }
}

/// `first_author_cell` on the cells from `from` on finds the cell at `k`
/// when it is the first there that can be the author.
proof fn lemma_first_author_from(cells: Seq<Seq<char>>, title: Seq<char>, from: int, k: int)
    requires
        0 <= from <= k < cells.len(),
        author_like(cells[k], title),
        forall|j: int| from <= j < k ==> !author_like(#[trigger] cells[j], title),
    ensures
        first_author_cell(cells.skip(from), title) == Some(cells[k]),
    decreases k - from,
{
    reveal(author_like);
    let rest = cells.skip(from);
    assert(rest[0] == cells[from]);
    if from < k {
        assert(!author_like(cells[from], title));
        lemma_first_author_from(cells, title, from + 1, k);
        assert(rest.drop_first() =~= cells.skip(from + 1));
    }
}

/// `first_author_cell` on the cells from `from` on finds nothing when no
/// cell there can be the author.
proof fn lemma_no_author_from(cells: Seq<Seq<char>>, title: Seq<char>, from: int)
    requires
        0 <= from <= cells.len(),
        forall|j: int| from <= j < cells.len() ==> !author_like(#[trigger] cells[j], title),
    ensures
        first_author_cell(cells.skip(from), title) is None,
    decreases cells.len() - from,
{
    reveal(author_like);
    let rest = cells.skip(from);
    if from < cells.len() {
        assert(rest[0] == cells[from]);
        assert(!author_like(cells[from], title));
        lemma_no_author_from(cells, title, from + 1);
        assert(rest.drop_first() =~= cells.skip(from + 1));
    }
}

/// The size of a row is what the size pattern first finds, in the first cell
/// where it finds anything; it is empty when it finds nothing.
pub proof fn lemma_row_size(cells: Seq<Seq<char>>)
    ensures
        forall|k: int|
            0 <= k < cells.len() && regex_capture(size_pattern(), #[trigger] cells[k], 0) is Some
                && (forall|j: int| 0 <= j < k ==> regex_capture(size_pattern(), #[trigger] cells[j], 0) is None)
                ==> row_size(cells) == regex_capture(size_pattern(), cells[k], 0)->Some_0,
        (forall|j: int|
            0 <= j < cells.len() ==> regex_capture(size_pattern(), #[trigger] cells[j], 0) is None)
            ==> row_size(cells).len() == 0,
    decreases cells.len(),
{
    if cells.len() > 0 {
        let rest = cells.drop_first();
        lemma_row_size(rest);
        assert forall|k: int|
            0 <= k < cells.len() && regex_capture(size_pattern(), #[trigger] cells[k], 0) is Some
                && (forall|j: int| 0 <= j < k ==> regex_capture(size_pattern(), #[trigger] cells[j], 0) is None)
            implies row_size(cells) == regex_capture(size_pattern(), cells[k], 0)->Some_0 by {
            if k > 0 {
                assert(regex_capture(size_pattern(), cells[0], 0) is None);
                assert(rest[k - 1] == cells[k]);
                assert forall|j: int| 0 <= j < k - 1 implies regex_capture(
                    size_pattern(),
                    rest[j],
                    0,
                ) is None by {
                    assert(rest[j] == cells[j + 1]);
                }
            }
        }
        if forall|j: int|
            0 <= j < cells.len() ==> regex_capture(size_pattern(), #[trigger] cells[j], 0) is None {
            assert(regex_capture(size_pattern(), cells[0], 0) is None);
            assert forall|j: int| 0 <= j < rest.len() implies regex_capture(
                size_pattern(),
                #[trigger] rest[j],
                0,
            ) is None by {
                assert(rest[j] == cells[j + 1]);
            }
        }
    }
}

/// The first of `exts` that `lower` equals or starts with.
pub open spec fn matching_extension(lower: Seq<char>, exts: Seq<Seq<char>>) -> Option<Seq<char>>
    decreases exts.len(),
{
    if exts.len() == 0 {
        None
    } else if lower == exts[0] || starts_with(lower, exts[0]) {
        Some(exts[0])
    } else {
        matching_extension(lower, exts.drop_first())
    }
}

/// The file format of a row: the known format named by the last cell that,
/// lower-cased, is or starts with one; empty when no cell does.
pub open spec fn row_extension(cells: Seq<Seq<char>>) -> Seq<char>
    decreases cells.len(),
{
    if cells.len() == 0 {
        Seq::empty()
    } else {
        match matching_extension(lowercase(cells.last()), known_extensions()) {
            Some(e) => e,
            None => row_extension(cells.drop_last()),
        }
    }
}

/// `matching_extension` gives the first of `exts` that `lower` equals or
/// starts with.
pub proof fn lemma_matching_extension_first(lower: Seq<char>, exts: Seq<Seq<char>>, k: int)
    requires
        0 <= k < exts.len(),
        lower == exts[k] || starts_with(lower, exts[k]),
        forall|j: int| 0 <= j < k ==> !(lower == #[trigger] exts[j] || starts_with(lower, exts[j])),
    ensures
        matching_extension(lower, exts) == Some(exts[k]),
    decreases k,
{
    if k > 0 {
        let rest = exts.drop_first();
        assert(!(lower == exts[0] || starts_with(lower, exts[0])));
        assert forall|j: int| 0 <= j < k - 1 implies !(lower == #[trigger] rest[j] || starts_with(
            lower,
            rest[j],
        )) by {
            assert(rest[j] == exts[j + 1]);
        }
        lemma_matching_extension_first(lower, rest, k - 1);
    }
}

/// What `matching_extension` gives is one of `exts`, and one that `lower`
/// equals or starts with.
pub proof fn lemma_matching_extension_within(lower: Seq<char>, exts: Seq<Seq<char>>)
    ensures
        matching_extension(lower, exts) matches Some(e) ==> exts.contains(e) && (lower == e
            || starts_with(lower, e)),
    decreases exts.len(),
{
    if exts.len() > 0 {
        lemma_matching_extension_within(lower, exts.drop_first());
        if let Some(e) = matching_extension(lower, exts.drop_first()) {
            if !(lower == exts[0] || starts_with(lower, exts[0])) {
                let k = choose|k: int| 0 <= k < exts.drop_first().len() && exts.drop_first()[k] == e;
                assert(exts[k + 1] == e);
            }
        }
    }
}

/// The format that a cell names, lower-cased, among the known ones.
proof fn lemma_known_extension_at(k: int)
    requires
        0 <= k < 13,
        k != 8,
    ensures
        matching_extension(known_extensions()[k], known_extensions()) == Some(known_extensions()[k]),
{
    reveal_strlit("pdf");
    reveal_strlit("epub");
    reveal_strlit("djvu");
    reveal_strlit("mobi");
    reveal_strlit("chm");
    reveal_strlit("azw3");
    reveal_strlit("fb2");
    reveal_strlit("doc");
    reveal_strlit("docx");
    reveal_strlit("rtf");
    reveal_strlit("txt");
    reveal_strlit("lit");
    reveal_strlit("azw");
    let exts = known_extensions();
    let lower = exts[k];
    assert forall|j: int| 0 <= j < k implies !(lower == #[trigger] exts[j] || starts_with(
        lower,
        exts[j],
    )) by {
        if lower == exts[j] {
            assert(lower.len() == exts[j].len());
            assert(lower[0] == exts[j][0]);
        }
        if starts_with(lower, exts[j]) {
            assert(lower.subrange(0, exts[j].len() as int)[0] == exts[j][0]);
        }
    }
    lemma_matching_extension_first(lower, exts, k);
}

/// The format of a row whose last cell names one.
proof fn lemma_last_cell_format(cells: Seq<Seq<char>>)
    requires
        cells.len() > 0,
    ensures
        lowercase(cells.last()) == "pdf"@ ==> row_extension(cells) == "pdf"@,
        lowercase(cells.last()) == "epub"@ ==> row_extension(cells) == "epub"@,
        lowercase(cells.last()) == "djvu"@ ==> row_extension(cells) == "djvu"@,
        lowercase(cells.last()) == "mobi"@ ==> row_extension(cells) == "mobi"@,
        lowercase(cells.last()) == "chm"@ ==> row_extension(cells) == "chm"@,
        lowercase(cells.last()) == "azw3"@ ==> row_extension(cells) == "azw3"@,
        lowercase(cells.last()) == "fb2"@ ==> row_extension(cells) == "fb2"@,
        lowercase(cells.last()) == "doc"@ ==> row_extension(cells) == "doc"@,
        lowercase(cells.last()) == "docx"@ ==> row_extension(cells) == "doc"@,
        lowercase(cells.last()) == "rtf"@ ==> row_extension(cells) == "rtf"@,
        lowercase(cells.last()) == "txt"@ ==> row_extension(cells) == "txt"@,
        lowercase(cells.last()) == "lit"@ ==> row_extension(cells) == "lit"@,
        lowercase(cells.last()) == "azw"@ ==> row_extension(cells) == "azw"@,
        ({
            let r = row_extension(cells);
            r.len() == 0 || r == "pdf"@ || r == "epub"@ || r == "djvu"@ || r == "mobi"@ || r == "chm"@ || r == "azw3"@ || r == "fb2"@ || r == "doc"@ || r == "docx"@ || r == "rtf"@ || r == "txt"@ || r == "lit"@ || r == "azw"@
        }),
    decreases cells.len(),
{
    reveal_strlit("pdf");
    reveal_strlit("epub");
    reveal_strlit("djvu");
    reveal_strlit("mobi");
    reveal_strlit("chm");
    reveal_strlit("azw3");
    reveal_strlit("fb2");
    reveal_strlit("doc");
    reveal_strlit("docx");
    reveal_strlit("rtf");
    reveal_strlit("txt");
    reveal_strlit("lit");
    reveal_strlit("azw");
    let exts = known_extensions();
    let lower = lowercase(cells.last());
    if lower == exts[0] {
        lemma_known_extension_at(0);
    }
    if lower == exts[1] {
        lemma_known_extension_at(1);
    }
    if lower == exts[2] {
        lemma_known_extension_at(2);
    }
    if lower == exts[3] {
        lemma_known_extension_at(3);
    }
    if lower == exts[4] {
        lemma_known_extension_at(4);
    }
    if lower == exts[5] {
        lemma_known_extension_at(5);
    }
    if lower == exts[6] {
        lemma_known_extension_at(6);
    }
    if lower == exts[7] {
        lemma_known_extension_at(7);
    }
    if lower == exts[9] {
        lemma_known_extension_at(9);
    }
    if lower == exts[10] {
        lemma_known_extension_at(10);
    }
    if lower == exts[11] {
        lemma_known_extension_at(11);
    }
    if lower == exts[12] {
        lemma_known_extension_at(12);
    }
    if lower == "docx"@ {
        assert(starts_with(lower, exts[7])) by {
            assert(lower.subrange(0, 3) =~= exts[7]);
        }
        assert forall|j: int| 0 <= j < 7 implies !(lower == #[trigger] exts[j] || starts_with(
            lower,
            exts[j],
        )) by {
            if lower == exts[j] {
                assert(lower[0] == exts[j][0] && lower[1] == exts[j][1]);
            }
            if starts_with(lower, exts[j]) {
                let head = lower.subrange(0, exts[j].len() as int);
                assert(head[0] == exts[j][0] && head[1] == exts[j][1]);
            }
        }
        lemma_matching_extension_first(lower, exts, 7);
    }
    assert(exts[0] == "pdf"@ && exts[3] == "mobi"@ && exts[12] == "azw"@);
    lemma_row_extension_within(cells);
}

/// Whether `c` neither is nor starts with any of the names `pdf`, `epub`,
/// `djvu`, `mobi`, `chm`, `azw3`, `fb2`, `doc`, `docx`, `rtf`, `txt`, `lit`
/// and `azw`.
pub open spec fn names_no_format(c: Seq<char>) -> bool {
    !(starts_with(c, "pdf"@) || starts_with(c, "epub"@) || starts_with(c, "djvu"@) || starts_with(c, "mobi"@) || starts_with(c, "chm"@) || starts_with(c, "azw3"@) || starts_with(c, "fb2"@) || starts_with(c, "doc"@) || starts_with(c, "docx"@) || starts_with(c, "rtf"@) || starts_with(c, "txt"@) || starts_with(c, "lit"@) || starts_with(c, "azw"@))
}

/// Cells that, lower-cased, name no format do not change a row's format:
/// it is that of the cells before them.
pub proof fn lemma_row_extension_skips(cells: Seq<Seq<char>>, k: int)
    requires
        0 <= k <= cells.len(),
        forall|j: int| k <= j < cells.len() ==> names_no_format(lowercase(#[trigger] cells[j])),
    ensures
        row_extension(cells) == row_extension(cells.take(k)),
    decreases cells.len() - k,
{
    if cells.len() > k {
        let lower = lowercase(cells.last());
        assert(names_no_format(lowercase(cells[cells.len() - 1])));
        lemma_matching_extension_within(lower, known_extensions());
        if let Some(e) = matching_extension(lower, known_extensions()) {
            reveal_strlit("pdf");
            reveal_strlit("epub");
            reveal_strlit("djvu");
            reveal_strlit("mobi");
            reveal_strlit("chm");
            reveal_strlit("azw3");
            reveal_strlit("fb2");
            reveal_strlit("doc");
            reveal_strlit("docx");
            reveal_strlit("rtf");
            reveal_strlit("txt");
            reveal_strlit("lit");
            reveal_strlit("azw");
            let i = choose|i: int| 0 <= i < known_extensions().len() && known_extensions()[i] == e;
            if lower == e {
                assert(lower.subrange(0, e.len() as int) =~= lower);
            }
            assert(starts_with(lower, e));
            assert(false);
        }
        let rest = cells.drop_last();
        assert forall|j: int| k <= j < rest.len() implies names_no_format(
            lowercase(#[trigger] rest[j]),
        ) by {
            assert(rest[j] == cells[j]);
        }
        lemma_row_extension_skips(rest, k);
        assert(rest.take(k) =~= cells.take(k));
    } else {
        assert(cells.take(k) =~= cells);
    }
}

/// A row whose cell at `k` names a known format, in any letter case, while
/// no later cell names one, gets that format: each of `pdf`, `epub`, `djvu`,
/// `mobi`, `chm`, `azw3`, `fb2`, `doc`, `rtf`, `txt`, `lit` and `azw` is
/// taken as it is, while `docx`, which starts with `doc`, tried before it,
/// reads as `doc`. And a row's format is always empty or one of these
/// thirteen names.
pub proof fn lemma_row_extension_names(cells: Seq<Seq<char>>, k: int)
    requires
        0 <= k < cells.len(),
        forall|j: int| k < j < cells.len() ==> names_no_format(lowercase(#[trigger] cells[j])),
    ensures
        lowercase(cells[k]) == "pdf"@ ==> row_extension(cells) == "pdf"@,
        lowercase(cells[k]) == "epub"@ ==> row_extension(cells) == "epub"@,
        lowercase(cells[k]) == "djvu"@ ==> row_extension(cells) == "djvu"@,
        lowercase(cells[k]) == "mobi"@ ==> row_extension(cells) == "mobi"@,
        lowercase(cells[k]) == "chm"@ ==> row_extension(cells) == "chm"@,
        lowercase(cells[k]) == "azw3"@ ==> row_extension(cells) == "azw3"@,
        lowercase(cells[k]) == "fb2"@ ==> row_extension(cells) == "fb2"@,
        lowercase(cells[k]) == "doc"@ ==> row_extension(cells) == "doc"@,
        lowercase(cells[k]) == "docx"@ ==> row_extension(cells) == "doc"@,
        lowercase(cells[k]) == "rtf"@ ==> row_extension(cells) == "rtf"@,
        lowercase(cells[k]) == "txt"@ ==> row_extension(cells) == "txt"@,
        lowercase(cells[k]) == "lit"@ ==> row_extension(cells) == "lit"@,
        lowercase(cells[k]) == "azw"@ ==> row_extension(cells) == "azw"@,
        ({
            let r = row_extension(cells);
            r.len() == 0 || r == "pdf"@ || r == "epub"@ || r == "djvu"@ || r == "mobi"@ || r == "chm"@ || r == "azw3"@ || r == "fb2"@ || r == "doc"@ || r == "docx"@ || r == "rtf"@ || r == "txt"@ || r == "lit"@ || r == "azw"@
        }),
{
    lemma_row_extension_skips(cells, k + 1);
    let t = cells.take(k + 1);
    assert(t.last() == cells[k]);
    lemma_last_cell_format(t);
    lemma_last_cell_format(cells);
}

/// A row's format is empty or one of the known formats.
pub proof fn lemma_row_extension_within(cells: Seq<Seq<char>>)
    ensures
        row_extension(cells).len() == 0 || known_extensions().contains(row_extension(cells)),
    decreases cells.len(),
{
    if cells.len() > 0 {
        lemma_matching_extension_within(lowercase(cells.last()), known_extensions());
        lemma_row_extension_within(cells.drop_last());
    }
}

/// The size of a row: the first size found in a cell, in cell order; empty
/// when no cell holds one.
pub open spec fn row_size(cells: Seq<Seq<char>>) -> Seq<char>
    decreases cells.len(),
{
    if cells.len() == 0 {
        Seq::empty()
    } else {
        match regex_capture(size_pattern(), cells[0], 0) {
            Some(s) => s,
            None => row_size(cells.drop_first()),
        }
    }
}

/// The book that one table row describes, given its `a` and `td` elements:
/// none when no link carries a non-empty MD5 or the row has no cells.
pub open spec fn libgen_entry(links: Seq<ElementView>, tds: Seq<ElementView>) -> Option<BookView> {
    match row_md5(links) {
        Some(md5) => {
            let cells = tds.map_values(|e: ElementView| cell_text(e));
            if md5.len() == 0 || cells.len() == 0 {
                None
            } else {
                let title = row_title(cells);
                Some(
                    BookView {
                        id: md5,
                        title: title,
                        author: row_author(cells, title),
                        format: row_extension(cells),
                        size: row_size(cells),
                        provider: "libgen"@,
                        download_id: md5,
                    },
                )
            }
        },
        None => None,
    }
}

/// The books that the first `n` table rows describe, in order.
pub open spec fn libgen_books(
    links: Seq<Seq<ElementView>>,
    tds: Seq<Seq<ElementView>>,
    n: int,
) -> Seq<BookView>
    decreases n,
{
    if n <= 0 {
        Seq::empty()
    } else {
        let prev = libgen_books(links, tds, n - 1);
        match libgen_entry(links[n - 1], tds[n - 1]) {
            Some(b) => prev.push(b),
            None => prev,
        }
    }
}

/// The MD5 that `h` carries, if it links to a download page.
fn md5_of_href(h: &Vec<char>) -> (r: Option<Vec<char>>)
    ensures
        r matches Some(m) ==> md5_in_href(h@) == Some(m@),
        r is None ==> md5_in_href(h@) is None,
{
    let p1 = chars_of("/ads.php?md5=");
    let p2 = chars_of("ads.php?md5=");
    if contains_chars(h, &p1) || contains_chars(h, &p2) {
        let key = chars_of("md5=");
        match find_chars(h, &key) {
            Some(pos) => {
                proof {
                    crate::text::lemma_find(h@, key@);
                }
                assert(crate::text::occurs_at(h@, key@, pos as int));
                let hl = h.len();
                let start = pos + key.len();
                let m = copy_range(h, start, hl);
                assert(m@ =~= h@.skip(pos + "md5="@.len()));
                Some(m)
            },
            None => None,
        }
    } else {
        None
    }
}

/// The MD5 of the last link of a row that carries one.
fn md5_of_row(links: &Vec<HtmlElement>) -> (r: Option<Vec<char>>)
    ensures
        r matches Some(m) ==> row_md5(links.deep_view()) == Some(m@),
        r is None ==> row_md5(links.deep_view()) is None,
{
    let ghost lv = links.deep_view();
    let mut md5: Option<Vec<char>> = None;
    let mut i: usize = 0;
    assert(lv.take(0) =~= Seq::<ElementView>::empty());
    while i < links.len()
        invariant
            i <= links.len(),
            lv == links.deep_view(),
            md5 matches Some(m) ==> row_md5(lv.take(i as int)) == Some(m@),
            md5 is None ==> row_md5(lv.take(i as int)) is None,
        decreases links.len() - i,
    {
        assert(lv.take(i + 1).drop_last() =~= lv.take(i as int));
        assert(lv.take(i + 1).last() == links[i as int].deep_view());
        match href_of(&links[i]) {
            Some(h) => {
                match md5_of_href(&h) {
                    Some(m) => {
                        md5 = Some(m);
                    },
                    None => {},
                }
            },
            None => {},
        }
        i = i + 1;
    }
    assert(lv.take(links.len() as int) =~= lv);
    md5
}

/// The texts of the cells of a row.
fn cell_texts(tds: &Vec<HtmlElement>) -> (r: Vec<Vec<char>>)
    ensures
        r.deep_view() == tds.deep_view().map_values(|e: ElementView| cell_text(e)),
{
    let mut r: Vec<Vec<char>> = Vec::new();
    let mut i: usize = 0;
    while i < tds.len()
        invariant
            i <= tds.len(),
            r.len() == i,
            forall|k: int| 0 <= k < i ==> (#[trigger] r@[k])@ == cell_text(tds@[k].deep_view()),
        decreases tds.len() - i,
    {
        let joined = join_strings(&tds[i].texts, " ");
        let t = normalize_whitespace(&joined);
        r.push(t);
        i = i + 1;
    }
    assert(r.deep_view() =~~= tds.deep_view().map_values(|e: ElementView| cell_text(e)));
    r
}

/// The title of a row (see [`row_title`]).
fn title_of_row(cells: &Vec<Vec<char>>) -> (r: Vec<char>)
    requires
        cells.len() > 0,
    ensures
        r@ == row_title(cells.deep_view()),
{
    let ghost cv = cells.deep_view();
    let mut i: usize = 0;
    assert(cv.skip(0) =~= cv);
    while i < cells.len()
        invariant
            i <= cells.len(),
            cv == cells.deep_view(),
            first_long_cell(cv) == first_long_cell(cv.skip(i as int)),
        decreases cells.len() - i,
    {
        let ghost rest = cv.skip(i as int);
        assert(rest.drop_first() =~= cv.skip(i + 1));
        assert(rest[0] =~= cells[i as int]@);
        if utf8_len_exceeds(&cells[i], 20) {
            let t = string_of(&cells[i]);
            let cleaned = replace_first("\\s+\\d{10,13}[;\\s].*$", t.as_str(), "");
            let cc = chars_of(cleaned.as_str());
            assert(""@ =~= Seq::<char>::empty()) by {
                reveal_strlit("");
            }
            return take_prefix(&cc, 120);
        }
        i = i + 1;
    }
    assert(cv.skip(cells.len() as int) =~= Seq::<Seq<char>>::empty());
    assert(cv[0] =~= cells[0]@);
    copy_range(&cells[0], 0, cells[0].len())
}

/// The author of a row (see [`row_author`]).
fn author_of_row(cells: &Vec<Vec<char>>, title: &Vec<char>) -> (r: Vec<char>)
    requires
        cells.len() > 0,
    ensures
        r@ == row_author(cells.deep_view(), title@),
{
    let ghost cv = cells.deep_view();
    let mut i: usize = 1;
    while i < cells.len()
        invariant
            1 <= i <= cells.len(),
            cv == cells.deep_view(),
            first_author_cell(cv.skip(1), title@) == first_author_cell(cv.skip(i as int), title@),
        decreases cells.len() - i,
    {
        let ghost rest = cv.skip(i as int);
        assert(rest.drop_first() =~= cv.skip(i + 1));
        assert(rest[0] =~= cells[i as int]@);
        if cells[i].len() != 0 && utf8_len_exceeds(&cells[i], 1) && !same_chars(&cells[i], title) {
            return copy_range(&cells[i], 0, cells[i].len());
        }
        i = i + 1;
    }
    assert(cv.skip(cells.len() as int) =~= Seq::<Seq<char>>::empty());
    Vec::new()
}

/// The first known format that `lower` is or starts with.
fn extension_for(lower: &Vec<char>, exts: &Vec<&'static str>) -> (r: Option<&'static str>)
    ensures
        r matches Some(e) ==> matching_extension(lower@, exts@.map_values(|s: &'static str| s@))
            == Some(e@),
        r is None ==> matching_extension(lower@, exts@.map_values(|s: &'static str| s@)) is None,
{
    let ghost ev = exts@.map_values(|s: &'static str| s@);
    let mut j: usize = 0;
    assert(ev.skip(0) =~= ev);
    while j < exts.len()
        invariant
            j <= exts.len(),
            ev == exts@.map_values(|s: &'static str| s@),
            matching_extension(lower@, ev) == matching_extension(lower@, ev.skip(j as int)),
        decreases exts.len() - j,
    {
        let ghost rest = ev.skip(j as int);
        assert(rest.drop_first() =~= ev.skip(j + 1));
        let e = chars_of(exts[j]);
        if same_chars(lower, &e) || starts_with_chars(lower, &e) {
            return Some(exts[j]);
        }
        j = j + 1;
    }
    assert(ev.skip(exts.len() as int) =~= Seq::<Seq<char>>::empty());
    None
}

/// The file format of a row (see [`row_extension`]).
fn extension_of_row(cells: &Vec<Vec<char>>) -> (r: Vec<char>)
    ensures
        r@ == row_extension(cells.deep_view()),
{
    let ghost cv = cells.deep_view();
    let exts = known_extension_list();
    let mut i: usize = cells.len();
    assert(cv.take(cells.len() as int) =~= cv);
    while i > 0
        invariant
            i <= cells.len(),
            cv == cells.deep_view(),
            exts@.map_values(|s: &'static str| s@) == known_extensions(),
            row_extension(cv) == row_extension(cv.take(i as int)),
        decreases i,
    {
        let ghost upto = cv.take(i as int);
        assert(upto.drop_last() =~= cv.take(i - 1));
        assert(upto.last() =~= cells[i - 1]@);
        let lower = lowercase_chars(&cells[i - 1]);
        if let Some(e) = extension_for(&lower, &exts) {
            return chars_of(e);
        }
        i = i - 1;
    }
    assert(cv.take(0) =~= Seq::<Seq<char>>::empty());
    Vec::new()
}

/// The size of a row (see [`row_size`]).
fn size_of_row(cells: &Vec<Vec<char>>) -> (r: Vec<char>)
    ensures
        r@ == row_size(cells.deep_view()),
{
    let ghost cv = cells.deep_view();
    let mut i: usize = 0;
    assert(cv.skip(0) =~= cv);
    while i < cells.len()
        invariant
            i <= cells.len(),
            cv == cells.deep_view(),
            row_size(cv) == row_size(cv.skip(i as int)),
        decreases cells.len() - i,
    {
        let ghost rest = cv.skip(i as int);
        assert(rest.drop_first() =~= cv.skip(i + 1));
        assert(rest[0] =~= cells[i as int]@);
        let t = string_of(&cells[i]);
        if let Some(s) = capture_group(
            "(\\d+[\\.,]?\\d*)\\s*(kB|KB|Kb|MB|Mb|mB|GB|Gb|gB|bytes?)",
            t.as_str(),
            0,
        ) {
            return chars_of(s.as_str());
        }
        i = i + 1;
    }
    assert(cv.skip(cells.len() as int) =~= Seq::<Seq<char>>::empty());
    Vec::new()
}

/// The book that one table row describes (see [`libgen_entry`]).
fn libgen_book(links: &Vec<HtmlElement>, tds: &Vec<HtmlElement>) -> (r: Option<BookResult>)
    ensures
        r matches Some(b) ==> libgen_entry(links.deep_view(), tds.deep_view()) == Some(b@),
        r is None ==> libgen_entry(links.deep_view(), tds.deep_view()) is None,
{
    let md5 = match md5_of_row(links) {
        Some(m) => m,
        None => {
            return None;
        },
    };
    let cells = cell_texts(tds);
    if md5.len() == 0 || cells.len() == 0 {
        return None;
    }
    let title = title_of_row(&cells);
    let author = author_of_row(&cells, &title);
    let format = extension_of_row(&cells);
    let size = size_of_row(&cells);
    let id = string_of(&md5);
    Some(
        BookResult {
            id: id.clone(),
            title: string_of(&title),
            author: string_of(&author),
            format: string_of(&format),
            size: string_of(&size),
            provider: owned("libgen"),
            download_id: id,
        },
    )
}

/// The books that LibGen result rows describe, given for each table row its
/// `a` elements and its `td` elements.
pub fn libgen_results(links: &Vec<Vec<HtmlElement>>, tds: &Vec<Vec<HtmlElement>>) -> (r: Vec<
    BookResult,
>)
    ensures
        r.deep_view() == libgen_books(
            links.deep_view(),
            tds.deep_view(),
            if links.len() <= tds.len() {
                links.len() as int
            } else {
                tds.len() as int
            },
        ),
{
    let n = if links.len() <= tds.len() {
        links.len()
    } else {
        tds.len()
    };
    let mut r: Vec<BookResult> = Vec::new();
    let mut i: usize = 0;
    while i < n
        invariant
            i <= n <= links.len(),
            n <= tds.len(),
            r.deep_view() == libgen_books(links.deep_view(), tds.deep_view(), i as int),
        decreases n - i,
    {
        let ghost before = r.deep_view();
        assert(links.deep_view()[i as int] == links[i as int].deep_view());
        assert(tds.deep_view()[i as int] == tds[i as int].deep_view());
        match libgen_book(&links[i], &tds[i]) {
            Some(b) => {
                r.push(b);
                assert(r.deep_view() =~= before.push(b@));
            },
            None => {},
        }
        i = i + 1;
    }
    r
}

/// The books listed on a LibGen search page.
pub fn parse_libgen_html(html: &str) -> (r: Vec<BookResult>)
    ensures
        r.deep_view() == libgen_books(
            selected_within(html@, "table tr"@, "a"@),
            selected_within(html@, "table tr"@, "td"@),
            selected_within(html@, "table tr"@, "a"@).len() as int,
        ),
{
    let links = select_within(html, "table tr", "a");
    let tds = select_within(html, "table tr", "td");
    libgen_results(&links, &tds)
}

/// Where a link found on a download page leads: the link itself when it is
/// absolute, otherwise the LibGen site followed by the link without its
/// leading slashes.
pub open spec fn absolute_link(h: Seq<char>) -> Seq<char> {
    if starts_with(h, "http"@) {
        h
    } else {
        "https://libgen.li/"@ + strip_leading(h, '/')
    }
}

/// The address of the file that the first `get.php` link with an `md5=` among
/// `links` leads to.
pub open spec fn libgen_file_link(links: Seq<ElementView>) -> Option<Seq<char>>
    decreases links.len(),
{
    if links.len() == 0 {
        None
    } else {
        match links[0].0 {
            Some(h) => if contains(h, "get.php"@) && contains(h, "md5="@) {
                Some(absolute_link(h))
            } else {
                libgen_file_link(links.drop_first())
            },
            None => libgen_file_link(links.drop_first()),
        }
    }
}

/// Whether `e` is a link to a file on a download page: its `href` holds
/// both `get.php` and `md5=`.
pub open spec fn is_file_link(e: ElementView) -> bool {
    e.0 matches Some(h) && contains(h, "get.php"@) && contains(h, "md5="@)
}

/// The file link of a download page is the first link whose `href` holds
/// `get.php` and `md5=`, as it is when it starts with `http`, and otherwise
/// on the LibGen site with its leading slashes dropped; there is none only
/// when no link holds both.
pub proof fn lemma_libgen_file_link_first(links: Seq<ElementView>)
    ensures
        forall|k: int|
            0 <= k < links.len() && is_file_link(#[trigger] links[k]) && (forall|j: int|
                0 <= j < k ==> !is_file_link(links[j])) ==> libgen_file_link(links) == Some(
                if starts_with(links[k].0->Some_0, "http"@) {
                    links[k].0->Some_0
                } else {
                    "https://libgen.li/"@ + strip_leading(links[k].0->Some_0, '/')
                },
            ),
        (forall|j: int| 0 <= j < links.len() ==> !is_file_link(#[trigger] links[j]))
            <==> libgen_file_link(links) is None,
    decreases links.len(),
{
    if links.len() > 0 {
        let rest = links.drop_first();
        lemma_libgen_file_link_first(rest);
        assert forall|k: int|
            0 <= k < links.len() && is_file_link(#[trigger] links[k]) && (forall|j: int|
                0 <= j < k ==> !is_file_link(links[j])) implies libgen_file_link(links) == Some(
            if starts_with(links[k].0->Some_0, "http"@) {
                links[k].0->Some_0
            } else {
                "https://libgen.li/"@ + strip_leading(links[k].0->Some_0, '/')
            },
        ) by {
            if k > 0 {
                assert(!is_file_link(links[0]));
                assert(rest[k - 1] == links[k]);
                assert forall|j: int| 0 <= j < k - 1 implies !is_file_link(rest[j]) by {
                    assert(rest[j] == links[j + 1]);
                }
            }
        }
        if libgen_file_link(links) is None {
            assert(!is_file_link(links[0]));
            assert forall|j: int| 0 <= j < links.len() implies !is_file_link(
                #[trigger] links[j],
            ) by {
                if j > 0 {
                    assert(rest[j - 1] == links[j]);
                }
            }
        }
        if forall|j: int| 0 <= j < links.len() ==> !is_file_link(#[trigger] links[j]) {
            assert(!is_file_link(links[0]));
            assert forall|j: int| 0 <= j < rest.len() implies !is_file_link(#[trigger] rest[j]) by {
                assert(rest[j] == links[j + 1]);
            }
        }
    }
}

/// The address of the file that a LibGen download page links to, given the
/// page's `a` elements.
pub fn file_link_in(links: &Vec<HtmlElement>) -> (r: Option<String>)
    ensures
        r.deep_view() == libgen_file_link(links.deep_view()),
{
    let ghost lv = links.deep_view();
    let mut i: usize = 0;
    assert(lv.skip(0) =~= lv);
    while i < links.len()
        invariant
            i <= links.len(),
            lv == links.deep_view(),
            libgen_file_link(lv) == libgen_file_link(lv.skip(i as int)),
        decreases links.len() - i,
    {
        let ghost rest = lv.skip(i as int);
        assert(rest.drop_first() =~= lv.skip(i + 1));
        assert(rest[0] == links[i as int].deep_view());
        if let Some(h) = href_of(&links[i]) {
            let g = chars_of("get.php");
            let m = chars_of("md5=");
            if contains_chars(&h, &g) && contains_chars(&h, &m) {
                let http = chars_of("http");
                if starts_with_chars(&h, &http) {
                    return Some(string_of(&h));
                } else {
                    let mut out = chars_of("https://libgen.li/");
                    let tail = strip_leading_chars(&h, '/');
                    append_chars(&mut out, &tail);
                    return Some(string_of(&out));
                }
            }
        }
        i = i + 1;
    }
    assert(lv.skip(links.len() as int) =~= Seq::<ElementView>::empty());
    None
}

/// The address of the file that a LibGen download page links to.
pub fn extract_download_url(body: &str) -> (r: Option<String>)
    ensures
        r.deep_view() == libgen_file_link(selected(body@, "a"@)),
{
    let links = select_elements(body, "a");
    file_link_in(&links)
}

/// A file address found on a download page always starts with `http`.
pub proof fn lemma_file_link_is_http(links: Seq<ElementView>)
    ensures
        libgen_file_link(links) matches Some(u) ==> starts_with(u, "http"@),
    decreases links.len(),
{
    reveal_strlit("http");
    reveal_strlit("https://libgen.li/");
    if links.len() > 0 {
        lemma_file_link_is_http(links.drop_first());
        if let Some(h) = links[0].0 {
            let u = "https://libgen.li/"@ + strip_leading(h, '/');
            assert(u.subrange(0, 4) =~= "http"@);
        }
    }
}

/// The address of the LibGen search for `query`.
pub fn libgen_search_url(query: &str) -> (r: String)
    ensures
        r@ == "https://libgen.li/index.php?req="@ + url_encoded(query@)
            + "&columns%5B%5D=title&objects%5B%5D=f&objects%5B%5D=e&objects%5B%5D=s&objects%5B%5D=a&objects%5B%5D=p&objects%5B%5D=w&topics%5B%5D=l&res=25&filesuns=all"@,
{
    let mut out: Vec<char> = Vec::new();
    append_str(&mut out, "https://libgen.li/index.php?req=");
    let q = url_encode(query);
    append_str(&mut out, q.as_str());
    append_str(
        &mut out,
        "&columns%5B%5D=title&objects%5B%5D=f&objects%5B%5D=e&objects%5B%5D=s&objects%5B%5D=a&objects%5B%5D=p&objects%5B%5D=w&topics%5B%5D=l&res=25&filesuns=all",
    );
    string_of(&out)
}

/// The address of the LibGen download page of the book with MD5 `md5`.
pub fn libgen_ads_url(md5: &str) -> (r: String)
    ensures
        r@ == "https://libgen.li/ads.php?md5="@ + md5@,
{
    let mut out: Vec<char> = Vec::new();
    append_str(&mut out, "https://libgen.li/ads.php?md5=");
    append_str(&mut out, md5);
    string_of(&out)
}


/// Every book read from a LibGen search page carries a non-empty MD5, which
/// is also what it is downloaded under, and comes from LibGen.
pub proof fn lemma_libgen_books_shape(links: Seq<Seq<ElementView>>, tds: Seq<Seq<ElementView>>, n: int)
    ensures
        forall|k: int|
            0 <= k < libgen_books(links, tds, n).len() ==> {
                let b = #[trigger] libgen_books(links, tds, n)[k];
                &&& b.id.len() > 0
                &&& b.id == b.download_id
                &&& b.provider == "libgen"@
            },
    decreases n,
{
    if n > 0 {
        lemma_libgen_books_shape(links, tds, n - 1);
        let prev = libgen_books(links, tds, n - 1);
        let cur = libgen_books(links, tds, n);
        assert forall|k: int| 0 <= k < cur.len() implies {
            let b = #[trigger] cur[k];
            &&& b.id.len() > 0
            &&& b.id == b.download_id
            &&& b.provider == "libgen"@
        } by {
            if k < prev.len() {
                assert(cur[k] == prev[k]);
            }
        }
    }
}

/// Each row that describes a book adds it after those of the rows before;
/// a row that describes none adds nothing. So there are never more books
/// than rows, and when every row describes a book, the books are those of
/// the rows, one for each, in order.
pub proof fn lemma_libgen_books_rows(links: Seq<Seq<ElementView>>, tds: Seq<Seq<ElementView>>, m: int, n: int)
    requires
        0 <= m <= n,
    ensures
        libgen_books(links, tds, n).len() <= n,
        (forall|k: int| m <= k < n ==> (#[trigger] libgen_entry(links[k], tds[k])) is None) ==> libgen_books(
            links, tds,
            n,
        ) == libgen_books(links, tds, m),
        (forall|k: int| 0 <= k < n ==> (#[trigger] libgen_entry(links[k], tds[k])) is Some) ==> libgen_books(links, tds, n).len()
            == n && forall|k: int| 0 <= k < n ==> libgen_books(links, tds, n)[k] == (libgen_entry(links[k], tds[k]))->Some_0,
    decreases n,
{
    if n > 0 {
        if m < n {
            lemma_libgen_books_rows(links, tds, m, n - 1);
        }
        lemma_libgen_books_rows(links, tds, n - 1, n - 1);
        if forall|k: int| 0 <= k < n ==> (#[trigger] libgen_entry(links[k], tds[k])) is Some {
            assert forall|k: int| 0 <= k < n - 1 implies (#[trigger] libgen_entry(links[k], tds[k])) is Some by {}
            assert(libgen_entry(links[(n - 1)], tds[(n - 1)]) is Some);
            assert forall|k: int| 0 <= k < n implies libgen_books(links, tds, n)[k] == (libgen_entry(links[k], tds[k]))->Some_0 by {
                if k < n - 1 {
                    assert(libgen_books(links, tds, n)[k] == libgen_books(links, tds, n - 1)[k]);
                }
            }
        }
    }
}

} // verus!
