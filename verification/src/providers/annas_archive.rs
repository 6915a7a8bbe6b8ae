//! Anna's Archive: reading its search and book pages, and the addresses it
//! uses.
use vstd::prelude::*;

use crate::encode::{url_encode, url_encoded};
use crate::html::{href_of, select_elements, selected, ElementView, HtmlElement};
use crate::pattern::{capture_group, regex_capture};
use crate::split::{join, join_strings, split, split_chars};
use crate::text::{
    append_chars, append_str, chars_of, contains, contains_chars, ends_with, ends_with_chars,
    has_char, lowercase, lowercase_chars, occurs_at, starts_with, starts_with_chars, string_of,
    take_chars, take_prefix, trim, trim_chars, utf8_len, utf8_len_exceeds, copy_range,
    lemma_trim_idempotent,
};
use crate::types::{BookResult, BookView};

verus! {

/// The pattern of a link to a book page, capturing the book's MD5.
pub open spec fn md5_link_pattern() -> Seq<char> {
    "^/md5/([a-f0-9]{32})$"@
}

/// The pattern of a file size.
pub open spec fn size_pattern() -> Seq<char> {
    "^\\d[\\d.,]*\\s*(kB|KB|MB|GB|bytes?)$"@
}

/// The pattern of a file format.
pub open spec fn format_pattern() -> Seq<char> {
    "^(?i)(pdf|epub|djvu|mobi|chm|azw3?|fb2|docx?|rtf|txt|lit|zip|rar)$"@
}

/// The MD5 that a link to a book page carries.
pub open spec fn anchor_md5(e: ElementView) -> Option<Seq<char>> {
    match e.0 {
        Some(h) => regex_capture(md5_link_pattern(), h, 1),
        None => None,
    }
}

/// The pieces trimmed, with the empty ones dropped.
pub open spec fn nonempty_trimmed(pieces: Seq<Seq<char>>) -> Seq<Seq<char>>
    decreases pieces.len(),
{
    if pieces.len() == 0 {
        Seq::empty()
    } else {
        let prev = nonempty_trimmed(pieces.drop_last());
        let t = trim(pieces.last());
        if t.len() > 0 {
            prev.push(t)
        } else {
            prev
        }
    }
}

/// Each kept piece is non-empty and trimmed; when no piece trims to
/// nothing, every piece is kept, trimmed, in order; when every piece does,
/// none is kept.
pub proof fn lemma_nonempty_trimmed(pieces: Seq<Seq<char>>)
    ensures
        forall|i: int|
            0 <= i < nonempty_trimmed(pieces).len() ==> (#[trigger] nonempty_trimmed(pieces)[i]).len()
                > 0 && trim(nonempty_trimmed(pieces)[i]) == nonempty_trimmed(pieces)[i],
        (forall|i: int| 0 <= i < pieces.len() ==> trim(#[trigger] pieces[i]).len() > 0)
            ==> nonempty_trimmed(pieces) == pieces.map_values(|p: Seq<char>| trim(p)),
        (forall|i: int| 0 <= i < pieces.len() ==> trim(#[trigger] pieces[i]).len() == 0)
            ==> nonempty_trimmed(pieces).len() == 0,
    decreases pieces.len(),
{
    if pieces.len() > 0 {
        let rest = pieces.drop_last();
        lemma_nonempty_trimmed(rest);
        let prev = nonempty_trimmed(rest);
        let cur = nonempty_trimmed(pieces);
        let t = trim(pieces.last());
        lemma_trim_idempotent(pieces.last());
        assert forall|i: int| 0 <= i < cur.len() implies (#[trigger] cur[i]).len() > 0 && trim(
            cur[i],
        ) == cur[i] by {
            if i < prev.len() {
                assert(cur[i] == prev[i]);
            }
        }
        if forall|i: int| 0 <= i < pieces.len() ==> trim(#[trigger] pieces[i]).len() > 0 {
            assert forall|i: int| 0 <= i < rest.len() implies trim(#[trigger] rest[i]).len() > 0 by {
                assert(rest[i] == pieces[i]);
            }
            assert(trim(pieces[pieces.len() - 1]).len() > 0);
            assert(cur =~= pieces.map_values(|p: Seq<char>| trim(p)));
        }
        if forall|i: int| 0 <= i < pieces.len() ==> trim(#[trigger] pieces[i]).len() == 0 {
            assert forall|i: int| 0 <= i < rest.len() implies trim(#[trigger] rest[i]).len() == 0 by {
                assert(rest[i] == pieces[i]);
            }
            assert(trim(pieces[pieces.len() - 1]).len() == 0);
        }
    }
}

/// The lines of text of a link: its text nodes joined by newlines, split at
/// the newlines, each piece trimmed, the empty ones dropped (the same lines
/// that `str::lines` gives once each is trimmed and empty ones are dropped).
pub open spec fn text_lines(e: ElementView) -> Seq<Seq<char>> {
    nonempty_trimmed(split(join(e.1, "\n"@), '\n'))
}

/// The first of `lines` that takes more than 5 bytes.
pub open spec fn first_long_line(lines: Seq<Seq<char>>) -> Option<Seq<char>>
    decreases lines.len(),
{
    if lines.len() == 0 {
        None
    } else if utf8_len(lines[0]) > 5 {
        Some(lines[0])
    } else {
        first_long_line(lines.drop_first())
    }
}

/// Whether a line holds the `|`-separated details of a book.
pub open spec fn is_meta_line(l: Seq<char>) -> bool {
    contains(l, " | "@) || l.contains('|')
}

/// The index of the first detail line at or after `from`.
pub open spec fn meta_index_from(lines: Seq<Seq<char>>, from: int) -> Option<int>
    decreases lines.len() - from,
{
    if from < 0 || from >= lines.len() {
        None
    } else if is_meta_line(lines[from]) {
        Some(from)
    } else {
        meta_index_from(lines, from + 1)
    }
}

/// The index of the first detail line.
pub open spec fn meta_index(lines: Seq<Seq<char>>) -> Option<int> {
    meta_index_from(lines, 0)
}

/// The author: the line before the detail line when that is the third line or
/// later, otherwise the second line, or nothing.
pub open spec fn lines_author(lines: Seq<Seq<char>>) -> Seq<char> {
    match meta_index(lines) {
        Some(i) if i > 1 => lines[i - 1],
        _ => if lines.len() > 1 {
            lines[1]
        } else {
            Seq::empty()
        },
    }
}

/// Whether a detail names a language: two bytes or more, all ASCII letters or
/// `-`.
pub open spec fn is_language(p: Seq<char>) -> bool {
    utf8_len(p) >= 2 && forall|k: int|
        0 <= k < p.len() ==> ('a' <= #[trigger] p[k] <= 'z' || 'A' <= p[k] <= 'Z' || p[k] == '-')
}

/// Format, size and language read from the details, in order: a later size
/// or format replaces an earlier one, the first language stays.
pub open spec fn read_details(parts: Seq<Seq<char>>) -> (Seq<char>, Seq<char>, Seq<char>)
    decreases parts.len(),
{
    if parts.len() == 0 {
        (Seq::empty(), Seq::empty(), Seq::empty())
    } else {
        let (f, s, l) = read_details(parts.drop_last());
        let p = parts.last();
        if regex_capture(size_pattern(), p, 0) is Some {
            (f, p, l)
        } else if regex_capture(format_pattern(), p, 0) is Some {
            (lowercase(p), s, l)
        } else if is_language(p) && l.len() == 0 {
            (f, s, p)
        } else {
            (f, s, l)
        }
    }
}

/// Whether a detail reads as a file size.
pub open spec fn size_part(p: Seq<char>) -> bool {
    regex_capture(size_pattern(), p, 0) is Some
}

/// Whether a detail reads as a file format and not as a size.
pub open spec fn format_part(p: Seq<char>) -> bool {
    !size_part(p) && regex_capture(format_pattern(), p, 0) is Some
}

/// Whether a detail names a language and reads as neither a size nor a
/// format.
#[verifier::opaque]
pub open spec fn language_part(p: Seq<char>) -> bool {
    !size_part(p) && !format_part(p) && is_language(p)
}

/// Of a book's details, the size is the last one that reads as a size; the
/// format is the last one that reads as a format (and not as a size),
/// lower-cased; the language is the first one that names a language (and
/// reads as neither). Each is empty when no detail gives it.
pub proof fn lemma_read_details(parts: Seq<Seq<char>>)
    ensures
        forall|k: int|
            0 <= k < parts.len() && size_part(#[trigger] parts[k]) && (forall|j: int|
                k < j < parts.len() ==> !size_part(#[trigger] parts[j])) ==> read_details(parts).1
                == parts[k],
        (forall|j: int| 0 <= j < parts.len() ==> !size_part(#[trigger] parts[j]))
            ==> read_details(parts).1.len() == 0,
        forall|k: int|
            0 <= k < parts.len() && format_part(#[trigger] parts[k]) && (forall|j: int|
                k < j < parts.len() ==> !format_part(#[trigger] parts[j])) ==> read_details(parts).0
                == lowercase(parts[k]),
        (forall|j: int| 0 <= j < parts.len() ==> !format_part(#[trigger] parts[j]))
            ==> read_details(parts).0.len() == 0,
        forall|k: int|
            0 <= k < parts.len() && language_part(#[trigger] parts[k]) && (forall|j: int|
                0 <= j < k ==> !language_part(#[trigger] parts[j])) ==> read_details(parts).2
                == parts[k],
        (forall|j: int| 0 <= j < parts.len() ==> !language_part(#[trigger] parts[j]))
            <==> read_details(parts).2.len() == 0,
{
    lemma_details_size(parts);
    lemma_details_format(parts);
    lemma_details_language(parts);
}

/// The size among the details is the last one that reads as a size.
proof fn lemma_details_size(parts: Seq<Seq<char>>)
    ensures
        forall|k: int|
            0 <= k < parts.len() && size_part(#[trigger] parts[k]) && (forall|j: int|
                k < j < parts.len() ==> !size_part(#[trigger] parts[j])) ==> read_details(parts).1
                == parts[k],
        (forall|j: int| 0 <= j < parts.len() ==> !size_part(#[trigger] parts[j]))
            ==> read_details(parts).1.len() == 0,
    decreases parts.len(),
{
    if parts.len() > 0 {
        let rest = parts.drop_last();
        let n = parts.len() - 1;
        lemma_details_size(rest);
        assert(parts.last() == parts[n]);
        assert forall|k: int|
            0 <= k < parts.len() && size_part(#[trigger] parts[k]) && (forall|j: int|
                k < j < parts.len() ==> !size_part(#[trigger] parts[j])) implies read_details(
            parts,
        ).1 == parts[k] by {
            if k < n {
                assert(!size_part(parts[n]));
                assert(rest[k] == parts[k]);
                assert forall|j: int| k < j < rest.len() implies !size_part(#[trigger] rest[j]) by {
                    assert(rest[j] == parts[j]);
                }
            }
        }
        if forall|j: int| 0 <= j < parts.len() ==> !size_part(#[trigger] parts[j]) {
            assert(!size_part(parts[n]));
            assert forall|j: int| 0 <= j < rest.len() implies !size_part(#[trigger] rest[j]) by {
                assert(rest[j] == parts[j]);
            }
        }
    }
}

/// The format among the details is the last one that reads as a format.
proof fn lemma_details_format(parts: Seq<Seq<char>>)
    ensures
        forall|k: int|
            0 <= k < parts.len() && format_part(#[trigger] parts[k]) && (forall|j: int|
                k < j < parts.len() ==> !format_part(#[trigger] parts[j])) ==> read_details(parts).0
                == lowercase(parts[k]),
        (forall|j: int| 0 <= j < parts.len() ==> !format_part(#[trigger] parts[j]))
            ==> read_details(parts).0.len() == 0,
    decreases parts.len(),
{
    if parts.len() > 0 {
        let rest = parts.drop_last();
        let n = parts.len() - 1;
        lemma_details_format(rest);
        assert(parts.last() == parts[n]);
        assert forall|k: int|
            0 <= k < parts.len() && format_part(#[trigger] parts[k]) && (forall|j: int|
                k < j < parts.len() ==> !format_part(#[trigger] parts[j])) implies read_details(
            parts,
        ).0 == lowercase(parts[k]) by {
            if k < n {
                assert(!format_part(parts[n]));
                assert(rest[k] == parts[k]);
                assert forall|j: int| k < j < rest.len() implies !format_part(#[trigger] rest[j]) by {
                    assert(rest[j] == parts[j]);
                }
            }
        }
        if forall|j: int| 0 <= j < parts.len() ==> !format_part(#[trigger] parts[j]) {
            assert(!format_part(parts[n]));
            assert forall|j: int| 0 <= j < rest.len() implies !format_part(#[trigger] rest[j]) by {
                assert(rest[j] == parts[j]);
            }
        }
    }
}

/// The language among the details is the first one that names a language.
proof fn lemma_details_language(parts: Seq<Seq<char>>)
    ensures
        forall|k: int|
            0 <= k < parts.len() && language_part(#[trigger] parts[k]) && (forall|j: int|
                0 <= j < k ==> !language_part(#[trigger] parts[j])) ==> read_details(parts).2
                == parts[k],
        (forall|j: int| 0 <= j < parts.len() ==> !language_part(#[trigger] parts[j]))
            <==> read_details(parts).2.len() == 0,
    decreases parts.len(),
{
    if parts.len() > 0 {
        let rest = parts.drop_last();
        let n = parts.len() - 1;
        let p = parts[n];
        lemma_details_language(rest);
        assert(parts.last() == p);
        assert(language_part(p) == (!size_part(p) && !format_part(p) && is_language(p))) by {
            reveal(language_part);
        }
        if language_part(p) {
            assert(p.len() > 0) by {
                reveal(language_part);
                if p.len() == 0 {
                    assert(utf8_len(p) == 0);
                }
            }
        }
        assert forall|k: int|
            0 <= k < parts.len() && language_part(#[trigger] parts[k]) && (forall|j: int|
                0 <= j < k ==> !language_part(#[trigger] parts[j])) implies read_details(parts).2
            == parts[k] by {
            if k < n {
                assert(rest[k] == parts[k]);
                assert forall|j: int| 0 <= j < k implies !language_part(#[trigger] rest[j]) by {
                    assert(rest[j] == parts[j]);
                }
            } else {
                assert forall|j: int| 0 <= j < rest.len() implies !language_part(
                    #[trigger] rest[j],
                ) by {
                    assert(rest[j] == parts[j]);
                }
            }
        }
        if forall|j: int| 0 <= j < parts.len() ==> !language_part(#[trigger] parts[j]) {
            assert(!language_part(parts[n]));
            assert forall|j: int| 0 <= j < rest.len() implies !language_part(#[trigger] rest[j]) by {
                assert(rest[j] == parts[j]);
            }
        }
        if read_details(parts).2.len() == 0 {
            assert forall|j: int| 0 <= j < parts.len() implies !language_part(
                #[trigger] parts[j],
            ) by {
                if j < n {
                    assert(rest[j] == parts[j]);
                }
            }
        }
    }
}

/// The pieces trimmed.
pub open spec fn all_trimmed(pieces: Seq<Seq<char>>) -> Seq<Seq<char>> {
    pieces.map_values(|p: Seq<char>| trim(p))
}

/// Format, size and language of a link's lines: read from its detail line.
pub open spec fn lines_details(lines: Seq<Seq<char>>) -> (Seq<char>, Seq<char>, Seq<char>) {
    match meta_index(lines) {
        Some(i) => read_details(all_trimmed(split(lines[i], '|'))),
        None => (Seq::empty(), Seq::empty(), Seq::empty()),
    }
}

/// The source name shown for a book in `language`.
pub open spec fn annas_provider(language: Seq<char>) -> Seq<char> {
    "annas-archive"@ + if language.len() == 0 {
        Seq::empty()
    } else {
        " ("@ + language + ")"@
    }
}

/// The book that a link to the book page of `md5` describes.
pub open spec fn annas_entry(e: ElementView, md5: Seq<char>) -> BookView {
    let lines = text_lines(e);
    let title = match first_long_line(lines) {
        Some(l) => take_chars(l, 150),
        None => md5,
    };
    let (format, size, language) = lines_details(lines);
    BookView {
        id: md5,
        title: title,
        author: lines_author(lines),
        format: format,
        size: size,
        provider: annas_provider(language),
        download_id: md5,
    }
}

/// `first_long_line` finds the first line of more than 5 bytes.
proof fn lemma_first_long_line(lines: Seq<Seq<char>>)
    ensures
        forall|k: int|
            0 <= k < lines.len() && utf8_len(#[trigger] lines[k]) > 5 && (forall|j: int|
                0 <= j < k ==> utf8_len(#[trigger] lines[j]) <= 5) ==> first_long_line(lines)
                == Some(lines[k]),
        (forall|j: int| 0 <= j < lines.len() ==> utf8_len(#[trigger] lines[j]) <= 5)
            ==> first_long_line(lines) is None,
    decreases lines.len(),
{
    if lines.len() > 0 {
        let rest = lines.drop_first();
        lemma_first_long_line(rest);
        assert forall|k: int|
            0 <= k < lines.len() && utf8_len(#[trigger] lines[k]) > 5 && (forall|j: int|
                0 <= j < k ==> utf8_len(#[trigger] lines[j]) <= 5) implies first_long_line(lines)
            == Some(lines[k]) by {
            if k > 0 {
                assert(utf8_len(lines[0]) <= 5);
                assert(rest[k - 1] == lines[k]);
                assert forall|j: int| 0 <= j < k - 1 implies utf8_len(#[trigger] rest[j]) <= 5 by {
                    assert(rest[j] == lines[j + 1]);
                }
            }
        }
        if forall|j: int| 0 <= j < lines.len() ==> utf8_len(#[trigger] lines[j]) <= 5 {
            assert(utf8_len(lines[0]) <= 5);
            assert forall|j: int| 0 <= j < rest.len() implies utf8_len(#[trigger] rest[j]) <= 5 by {
                assert(rest[j] == lines[j + 1]);
            }
        }
    }
}

/// `meta_index_from` finds the first detail line at or after `from`.
proof fn lemma_meta_index_from(lines: Seq<Seq<char>>, from: int)
    requires
        0 <= from,
    ensures
        forall|k: int|
            from <= k < lines.len() && is_meta_line(#[trigger] lines[k]) && (forall|j: int|
                from <= j < k ==> !is_meta_line(#[trigger] lines[j])) ==> meta_index_from(
                lines,
                from,
            ) == Some(k),
        (forall|j: int| from <= j < lines.len() ==> !is_meta_line(#[trigger] lines[j]))
            ==> meta_index_from(lines, from) is None,
        meta_index_from(lines, from) matches Some(i) ==> from <= i < lines.len(),
    decreases lines.len() - from,
{
    if from < lines.len() {
        lemma_meta_index_from(lines, from + 1);
    }
}

/// A link on a search page is listed under the MD5 it carries, which is
/// also what it is downloaded by. Of its lines of text: the title is the
/// first that takes more than 5 bytes, cut to 150 characters (the MD5 when
/// none does); the details are read from the first line that holds a `|`;
/// the author is the line just before that one when it is the third line or
/// later, and otherwise the second line (empty when there is none); the
/// source name is `annas-archive`, followed by the language in brackets
/// where the details name one.
pub proof fn lemma_annas_entry(e: ElementView, md5: Seq<char>)
    ensures
        ({
            let lines = text_lines(e);
            let b = annas_entry(e, md5);
            &&& b.id == md5 && b.download_id == md5
            &&& forall|k: int|
                0 <= k < lines.len() && utf8_len(#[trigger] lines[k]) > 5 && (forall|j: int|
                    0 <= j < k ==> utf8_len(#[trigger] lines[j]) <= 5) ==> b.title == take_chars(
                    lines[k],
                    150,
                )
            &&& (forall|j: int| 0 <= j < lines.len() ==> utf8_len(#[trigger] lines[j]) <= 5)
                ==> b.title == md5
            &&& forall|k: int|
                0 <= k < lines.len() && (#[trigger] lines[k]).contains('|') && (forall|j: int|
                    0 <= j < k ==> !(#[trigger] lines[j]).contains('|')) ==> {
                    let (f, sz, l) = read_details(all_trimmed(split(lines[k], '|')));
                    &&& b.author == if k > 1 {
                        lines[k - 1]
                    } else if lines.len() > 1 {
                        lines[1]
                    } else {
                        Seq::empty()
                    }
                    &&& b.format == f
                    &&& b.size == sz
                    &&& b.provider == if l.len() == 0 {
                        "annas-archive"@
                    } else {
                        "annas-archive"@ + " ("@ + l + ")"@
                    }
                }
            &&& (forall|j: int| 0 <= j < lines.len() ==> !(#[trigger] lines[j]).contains('|'))
                ==> {
                &&& b.author == if lines.len() > 1 {
                    lines[1]
                } else {
                    Seq::empty()
                }
                &&& b.format.len() == 0
                &&& b.size.len() == 0
                &&& b.provider == "annas-archive"@
            }
        }),
{
    lemma_annas_entry_title(e, md5);
    lemma_annas_entry_details(e, md5);
}

/// A line holds the details exactly when it holds a `|`.
proof fn lemma_meta_line_bar(l: Seq<char>)
    ensures
        is_meta_line(l) == l.contains('|'),
{
    if contains(l, " | "@) {
        reveal_strlit(" | ");
        let i = choose|i: int| occurs_at(l, " | "@, i);
        assert(l.subrange(i, i + 3)[1] == '|');
        assert(l[i + 1] == '|');
    }
}

/// The title of a link's book (see [`lemma_annas_entry`]).
proof fn lemma_annas_entry_title(e: ElementView, md5: Seq<char>)
    ensures
        ({
            let lines = text_lines(e);
            let b = annas_entry(e, md5);
            &&& b.id == md5 && b.download_id == md5
            &&& forall|k: int|
                0 <= k < lines.len() && utf8_len(#[trigger] lines[k]) > 5 && (forall|j: int|
                    0 <= j < k ==> utf8_len(#[trigger] lines[j]) <= 5) ==> b.title == take_chars(
                    lines[k],
                    150,
                )
            &&& (forall|j: int| 0 <= j < lines.len() ==> utf8_len(#[trigger] lines[j]) <= 5)
                ==> b.title == md5
        }),
{
    lemma_first_long_line(text_lines(e));
}

/// The author and details of a link's book (see [`lemma_annas_entry`]).
proof fn lemma_annas_entry_details(e: ElementView, md5: Seq<char>)
    ensures
        ({
            let lines = text_lines(e);
            let b = annas_entry(e, md5);
            &&& forall|k: int|
                0 <= k < lines.len() && (#[trigger] lines[k]).contains('|') && (forall|j: int|
                    0 <= j < k ==> !(#[trigger] lines[j]).contains('|')) ==> {
                    let (f, sz, l) = read_details(all_trimmed(split(lines[k], '|')));
                    &&& b.author == if k > 1 {
                        lines[k - 1]
                    } else if lines.len() > 1 {
                        lines[1]
                    } else {
                        Seq::empty()
                    }
                    &&& b.format == f
                    &&& b.size == sz
                    &&& b.provider == if l.len() == 0 {
                        "annas-archive"@
                    } else {
                        "annas-archive"@ + " ("@ + l + ")"@
                    }
                }
            &&& (forall|j: int| 0 <= j < lines.len() ==> !(#[trigger] lines[j]).contains('|'))
                ==> {
                &&& b.author == if lines.len() > 1 {
                    lines[1]
                } else {
                    Seq::empty()
                }
                &&& b.format.len() == 0
                &&& b.size.len() == 0
                &&& b.provider == "annas-archive"@
            }
        }),
{
    let lines = text_lines(e);
    lemma_meta_index_from(lines, 0);
    assert forall|k: int|
        0 <= k < lines.len() && (#[trigger] lines[k]).contains('|') && (forall|j: int|
            0 <= j < k ==> !(#[trigger] lines[j]).contains('|')) implies meta_index(lines) == Some(
        k,
    ) by {
        lemma_meta_line_bar(lines[k]);
        assert forall|j: int| 0 <= j < k implies !is_meta_line(#[trigger] lines[j]) by {
            lemma_meta_line_bar(lines[j]);
        }
    }
    if forall|j: int| 0 <= j < lines.len() ==> !(#[trigger] lines[j]).contains('|') {
        assert forall|j: int| 0 <= j < lines.len() implies !is_meta_line(#[trigger] lines[j]) by {
            lemma_meta_line_bar(lines[j]);
        }
        assert(meta_index(lines) is None);
    }
    lemma_entry_fields(e, md5);
}

/// The author and details of a link's book, in terms of its first detail
/// line.
proof fn lemma_entry_fields(e: ElementView, md5: Seq<char>)
    ensures
        ({
            let lines = text_lines(e);
            let b = annas_entry(e, md5);
            &&& meta_index(lines) matches Some(k) ==> {
                let (f, sz, l) = read_details(all_trimmed(split(lines[k], '|')));
                &&& b.author == if k > 1 {
                    lines[k - 1]
                } else if lines.len() > 1 {
                    lines[1]
                } else {
                    Seq::empty()
                }
                &&& b.format == f
                &&& b.size == sz
                &&& b.provider == if l.len() == 0 {
                    "annas-archive"@
                } else {
                    "annas-archive"@ + " ("@ + l + ")"@
                }
            }
            &&& meta_index(lines) is None ==> {
                &&& b.author == if lines.len() > 1 {
                    lines[1]
                } else {
                    Seq::empty()
                }
                &&& b.format.len() == 0
                &&& b.size.len() == 0
                &&& b.provider == "annas-archive"@
            }
        }),
{
    let lines = text_lines(e);
    let b = annas_entry(e, md5);
    lemma_meta_index_from(lines, 0);
    reveal_strlit("annas-archive");
    assert("annas-archive"@ + Seq::<char>::empty() =~= "annas-archive"@);
    assert(b.author == lines_author(lines));
    assert((b.format, b.size, b.provider) == ({
        let (f, sz, l) = lines_details(lines);
        (f, sz, annas_provider(l))
    }));
    match meta_index(lines) {
        Some(k) => {
            let (f, sz, l) = read_details(all_trimmed(split(lines[k], '|')));
            assert(lines_details(lines) == (f, sz, l));
            assert(b.format == f);
            assert(b.size == sz);
            assert(b.provider == annas_provider(l));
            if l.len() > 0 {
                assert(annas_provider(l) =~= "annas-archive"@ + " ("@ + l + ")"@);
            }
        },
        None => {
            assert(lines_details(lines) == (Seq::<char>::empty(), Seq::<char>::empty(), Seq::<char>::empty()));
            assert(b.provider == annas_provider(Seq::empty()));
        },
    }
}

/// Whether one of `books` has the identifier `id`.
pub open spec fn has_id(books: Seq<BookView>, id: Seq<char>) -> bool {
    exists|k: int| 0 <= k < books.len() && books[k].id == id
}

/// The books that the first `n` links describe, in order, each MD5 once.
pub open spec fn annas_books(anchors: Seq<ElementView>, n: int) -> Seq<BookView>
    decreases n,
{
    if n <= 0 {
        Seq::empty()
    } else {
        let prev = annas_books(anchors, n - 1);
        match anchor_md5(anchors[n - 1]) {
            Some(m) => if has_id(prev, m) {
                prev
            } else {
                prev.push(annas_entry(anchors[n - 1], m))
            },
            None => prev,
        }
    }
}

/// No two books found on a page share an identifier.
pub proof fn lemma_annas_ids_distinct(anchors: Seq<ElementView>, n: int)
    ensures
        forall|i: int, j: int|
            0 <= i < j < annas_books(anchors, n).len() ==> annas_books(anchors, n)[i].id
                != annas_books(anchors, n)[j].id,
    decreases n,
{
    if n > 0 {
        lemma_annas_ids_distinct(anchors, n - 1);
        let prev = annas_books(anchors, n - 1);
        let cur = annas_books(anchors, n);
        assert forall|i: int, j: int| 0 <= i < j < cur.len() implies cur[i].id != cur[j].id by {
            if j == prev.len() {
                assert(cur[i] == prev[i]);
            }
        }
    }
}

/// The lines of `pieces`, trimmed, without the empty ones.
fn trimmed_lines(pieces: &Vec<Vec<char>>) -> (r: Vec<Vec<char>>)
    ensures
        r.deep_view() == nonempty_trimmed(pieces.deep_view()),
{
    let ghost pv = pieces.deep_view();
    let mut r: Vec<Vec<char>> = Vec::new();
    let mut i: usize = 0;
    assert(pv.take(0) =~= Seq::<Seq<char>>::empty());
    while i < pieces.len()
        invariant
            i <= pieces.len(),
            pv == pieces.deep_view(),
            r.deep_view() == nonempty_trimmed(pv.take(i as int)),
        decreases pieces.len() - i,
    {
        assert(pv.take(i + 1).drop_last() =~= pv.take(i as int));
        assert(pv.take(i + 1).last() =~= pieces[i as int]@);
        let t = trim_chars(&pieces[i]);
        if t.len() > 0 {
            let ghost before = r.deep_view();
            r.push(t);
            assert(r.deep_view() =~~= before.push(t@));
        }
        i = i + 1;
    }
    assert(pv.take(pieces.len() as int) =~= pv);
    r
}

/// The lines of text of a link (see [`text_lines`]).
fn lines_of(e: &HtmlElement) -> (r: Vec<Vec<char>>)
    ensures
        r.deep_view() == text_lines(e.deep_view()),
{
    let joined = join_strings(&e.texts, "\n");
    let pieces = split_chars(&joined, '\n');
    trimmed_lines(&pieces)
}

/// The title of a link's lines, with `md5` standing in when none is long enough.
fn title_of(lines: &Vec<Vec<char>>, md5: &Vec<char>) -> (r: Vec<char>)
    ensures
        r@ == match first_long_line(lines.deep_view()) {
            Some(l) => take_chars(l, 150),
            None => md5@,
        },
{
    let ghost lv = lines.deep_view();
    let mut i: usize = 0;
    assert(lv.skip(0) =~= lv);
    while i < lines.len()
        invariant
            i <= lines.len(),
            lv == lines.deep_view(),
            first_long_line(lv) == first_long_line(lv.skip(i as int)),
        decreases lines.len() - i,
    {
        let ghost rest = lv.skip(i as int);
        assert(rest.drop_first() =~= lv.skip(i + 1));
        assert(rest[0] =~= lines[i as int]@);
        if utf8_len_exceeds(&lines[i], 5) {
            return take_prefix(&lines[i], 150);
        }
        i = i + 1;
    }
    assert(lv.skip(lines.len() as int) =~= Seq::<Seq<char>>::empty());
    copy_range(md5, 0, md5.len())
}

/// Whether `l` is a detail line.
fn is_meta(l: &Vec<char>) -> (r: bool)
    ensures
        r == is_meta_line(l@),
{
    let sep = chars_of(" | ");
    contains_chars(l, &sep) || has_char(l, '|')
}

/// The index of the first detail line.
fn find_meta_index(lines: &Vec<Vec<char>>) -> (r: Option<usize>)
    ensures
        r matches Some(i) ==> i < lines.len() && meta_index(lines.deep_view()) == Some(i as int),
        r is None ==> meta_index(lines.deep_view()) is None,
{
    let ghost lv = lines.deep_view();
    let mut i: usize = 0;
    while i < lines.len()
        invariant
            i <= lines.len(),
            lv == lines.deep_view(),
            meta_index(lv) == meta_index_from(lv, i as int),
        decreases lines.len() - i,
    {
        assert(lv[i as int] =~= lines[i as int]@);
        if is_meta(&lines[i]) {
            return Some(i);
        }
        i = i + 1;
    }
    None
}

/// Whether `p` names a language (see [`is_language`]).
fn names_language(p: &Vec<char>) -> (r: bool)
    ensures
        r == is_language(p@),
{
    if !utf8_len_exceeds(p, 1) {
        return false;
    }
    let mut k: usize = 0;
    while k < p.len()
        invariant
            k <= p.len(),
            forall|m: int| 0 <= m < k ==> ('a' <= #[trigger] p@[m] <= 'z' || 'A' <= p@[m] <= 'Z' || p@[m] == '-'),
        decreases p.len() - k,
    {
        let c = p[k];
        if !(('a' <= c && c <= 'z') || ('A' <= c && c <= 'Z') || c == '-') {
            return false;
        }
        k = k + 1;
    }
    true
}

/// Format, size and language read from `parts` (see [`read_details`]).
fn details_of(parts: &Vec<Vec<char>>) -> (r: (Vec<char>, Vec<char>, Vec<char>))
    ensures
        (r.0@, r.1@, r.2@) == read_details(parts.deep_view()),
{
    let ghost pv = parts.deep_view();
    let mut format: Vec<char> = Vec::new();
    let mut size: Vec<char> = Vec::new();
    let mut language: Vec<char> = Vec::new();
    let mut i: usize = 0;
    assert(pv.take(0) =~= Seq::<Seq<char>>::empty());
    while i < parts.len()
        invariant
            i <= parts.len(),
            pv == parts.deep_view(),
            (format@, size@, language@) == read_details(pv.take(i as int)),
        decreases parts.len() - i,
    {
        assert(pv.take(i + 1).drop_last() =~= pv.take(i as int));
        assert(pv.take(i + 1).last() =~= parts[i as int]@);
        let p = string_of(&parts[i]);
        if capture_group("^\\d[\\d.,]*\\s*(kB|KB|MB|GB|bytes?)$", p.as_str(), 0).is_some() {
            size = copy_range(&parts[i], 0, parts[i].len());
        } else if capture_group(
            "^(?i)(pdf|epub|djvu|mobi|chm|azw3?|fb2|docx?|rtf|txt|lit|zip|rar)$",
            p.as_str(),
            0,
        ).is_some() {
            format = lowercase_chars(&parts[i]);
        } else if names_language(&parts[i]) && language.len() == 0 {
            language = copy_range(&parts[i], 0, parts[i].len());
        }
        i = i + 1;
    }
    assert(pv.take(parts.len() as int) =~= pv);
    (format, size, language)
}

/// The pieces, each trimmed.
fn trim_all(pieces: &Vec<Vec<char>>) -> (r: Vec<Vec<char>>)
    ensures
        r.deep_view() == all_trimmed(pieces.deep_view()),
{
    let mut r: Vec<Vec<char>> = Vec::new();
    let mut i: usize = 0;
    while i < pieces.len()
        invariant
            i <= pieces.len(),
            r.len() == i,
            forall|k: int| 0 <= k < i ==> (#[trigger] r@[k])@ == trim(pieces@[k]@),
        decreases pieces.len() - i,
    {
        let t = trim_chars(&pieces[i]);
        r.push(t);
        i = i + 1;
    }
    assert forall|k: int| 0 <= k < pieces.len() implies pieces.deep_view()[k] == pieces@[k]@ by {
        assert(pieces.deep_view()[k] =~= pieces@[k]@);
    }
    assert(r.deep_view() =~~= all_trimmed(pieces.deep_view()));
    r
}

/// The book that a link to the book page of `md5` describes (see [`annas_entry`]).
fn annas_book(e: &HtmlElement, md5: &String) -> (r: BookResult)
    ensures
        r@ == annas_entry(e.deep_view(), md5@),
{
    let lines = lines_of(e);
    let md5c = chars_of(md5.as_str());
    let title = title_of(&lines, &md5c);
    let meta = find_meta_index(&lines);
    let author = match meta {
        Some(i) if i > 1 => copy_range(&lines[i - 1], 0, lines[i - 1].len()),
        _ => if lines.len() > 1 {
            copy_range(&lines[1], 0, lines[1].len())
        } else {
            Vec::new()
        },
    };
    assert(author@ =~= lines_author(lines.deep_view()));
    let (format, size, language) = match meta {
        Some(i) => {
            let pieces = split_chars(&lines[i], '|');
            let parts = trim_all(&pieces);
            assert(lines.deep_view()[i as int] =~= lines[i as int]@);
            details_of(&parts)
        },
        None => (Vec::new(), Vec::new(), Vec::new()),
    };
    let mut provider = chars_of("annas-archive");
    if language.len() > 0 {
        append_str(&mut provider, " (");
        append_chars(&mut provider, &language);
        append_str(&mut provider, ")");
    }
    assert(provider@ =~= annas_provider(language@));
    BookResult {
        id: md5.clone(),
        title: string_of(&title),
        author: string_of(&author),
        format: string_of(&format),
        size: string_of(&size),
        provider: string_of(&provider),
        download_id: md5.clone(),
    }
}

/// Whether one of `books` has the identifier `id`.
fn has_book_id(books: &Vec<BookResult>, id: &String) -> (r: bool)
    ensures
        r == has_id(books.deep_view(), id@),
{
    let mut k: usize = 0;
    while k < books.len()
        invariant
            k <= books.len(),
            forall|m: int| 0 <= m < k ==> books.deep_view()[m].id != id@,
        decreases books.len() - k,
    {
        if books[k].id == *id {
            assert(books.deep_view()[k as int].id == id@);
            return true;
        }
        k = k + 1;
    }
    false
}

/// The books that links to book pages describe, each MD5 once, given the
/// page's `a` elements that have an `href`.
pub fn annas_results(anchors: &Vec<HtmlElement>) -> (r: Vec<BookResult>)
    ensures
        r.deep_view() == annas_books(anchors.deep_view(), anchors.len() as int),
{
    let mut r: Vec<BookResult> = Vec::new();
    let mut i: usize = 0;
    while i < anchors.len()
        invariant
            i <= anchors.len(),
            r.deep_view() == annas_books(anchors.deep_view(), i as int),
        decreases anchors.len() - i,
    {
        let ghost before = r.deep_view();
        assert(anchors.deep_view()[i as int] == anchors[i as int].deep_view());
        if let Some(h) = &anchors[i].href {
            if let Some(md5) = capture_group("^/md5/([a-f0-9]{32})$", h.as_str(), 1) {
                if !has_book_id(&r, &md5) {
                    let b = annas_book(&anchors[i], &md5);
                    r.push(b);
                    assert(r.deep_view() =~= before.push(b@));
                }
            }
        }
        i = i + 1;
    }
    r
}

/// The books listed on an Anna's Archive search page. The language the search
/// was made in plays no part.
pub fn parse_annas_html(html: &str, _lang: &str) -> (r: Vec<BookResult>)
    ensures
        r.deep_view() == annas_books(
            selected(html@, "a[href]"@),
            selected(html@, "a[href]"@).len() as int,
        ),
{
    let anchors = select_elements(html, "a[href]");
    annas_results(&anchors)
}

/// The address of a file that a link on a book page leads to: the first
/// absolute link whose text mentions a fast download, or that points at IPFS,
/// LibGen or a PDF or EPUB file.
pub open spec fn annas_file_link(links: Seq<ElementView>) -> Option<Seq<char>>
    decreases links.len(),
{
    if links.len() == 0 {
        None
    } else {
        match links[0].0 {
            Some(h) => {
                let text = lowercase(crate::html::element_text(links[0]));
                let is_fast = contains(text, "fast"@) || contains(text, "download"@);
                let is_direct = contains(h, "ipfs"@) || contains(h, "libgen"@) || ends_with(
                    h,
                    ".pdf"@,
                ) || ends_with(h, ".epub"@);
                if (is_fast || is_direct) && starts_with(h, "http"@) {
                    Some(h)
                } else {
                    annas_file_link(links.drop_first())
                }
            },
            None => annas_file_link(links.drop_first()),
        }
    }
}

/// Whether a link on a book page leads to a file (see [`annas_file_link`]).
fn is_file_link(e: &HtmlElement, h: &Vec<char>) -> (r: bool)
    requires
        e.deep_view().0 == Some(h@),
    ensures
        r == ({
            let text = lowercase(crate::html::element_text(e.deep_view()));
            let is_fast = contains(text, "fast"@) || contains(text, "download"@);
            let is_direct = contains(h@, "ipfs"@) || contains(h@, "libgen"@) || ends_with(
                h@,
                ".pdf"@,
            ) || ends_with(h@, ".epub"@);
            (is_fast || is_direct) && starts_with(h@, "http"@)
        }),
{
    let raw = crate::html::text_of(e);
    let text = lowercase_chars(&raw);
    let is_fast = contains_chars(&text, &chars_of("fast")) || contains_chars(
        &text,
        &chars_of("download"),
    );
    let is_direct = contains_chars(h, &chars_of("ipfs")) || contains_chars(h, &chars_of("libgen"))
        || ends_with_chars(h, &chars_of(".pdf")) || ends_with_chars(h, &chars_of(".epub"));
    (is_fast || is_direct) && starts_with_chars(h, &chars_of("http"))
}

/// Whether a link on a book page leads to a file: its `href` starts with
/// `http`, and either its text, lower-cased, mentions `fast` or `download`,
/// or its `href` mentions `ipfs` or `libgen` or ends in `.pdf` or `.epub`.
pub open spec fn leads_to_file(e: ElementView) -> bool {
    e.0 matches Some(h) && starts_with(h, "http"@) && (contains(
        lowercase(crate::html::element_text(e)),
        "fast"@,
    ) || contains(lowercase(crate::html::element_text(e)), "download"@) || contains(h, "ipfs"@)
        || contains(h, "libgen"@) || ends_with(h, ".pdf"@) || ends_with(h, ".epub"@))
}

/// The file link of a book page is the `href` of the first link that leads
/// to a file, taken as it is; there is none only when no link does.
pub proof fn lemma_annas_file_link_first(links: Seq<ElementView>)
    ensures
        forall|k: int|
            0 <= k < links.len() && leads_to_file(#[trigger] links[k]) && (forall|j: int|
                0 <= j < k ==> !leads_to_file(links[j])) ==> annas_file_link(links) == links[k].0,
        (forall|j: int| 0 <= j < links.len() ==> !leads_to_file(#[trigger] links[j]))
            <==> annas_file_link(links) is None,
    decreases links.len(),
{
    if links.len() > 0 {
        let rest = links.drop_first();
        lemma_annas_file_link_first(rest);
        assert forall|k: int|
            0 <= k < links.len() && leads_to_file(#[trigger] links[k]) && (forall|j: int|
                0 <= j < k ==> !leads_to_file(links[j])) implies annas_file_link(links)
            == links[k].0 by {
            if k > 0 {
                assert(!leads_to_file(links[0]));
                assert(rest[k - 1] == links[k]);
                assert forall|j: int| 0 <= j < k - 1 implies !leads_to_file(rest[j]) by {
                    assert(rest[j] == links[j + 1]);
                }
            }
        }
        if annas_file_link(links) is None {
            assert(!leads_to_file(links[0]));
            assert forall|j: int| 0 <= j < links.len() implies !leads_to_file(
                #[trigger] links[j],
            ) by {
                if j > 0 {
                    assert(rest[j - 1] == links[j]);
                }
            }
        }
        if forall|j: int| 0 <= j < links.len() ==> !leads_to_file(#[trigger] links[j]) {
            assert(!leads_to_file(links[0]));
            assert forall|j: int| 0 <= j < rest.len() implies !leads_to_file(#[trigger] rest[j]) by {
                assert(rest[j] == links[j + 1]);
            }
        }
    }
}

/// The address of the file that an Anna's Archive book page links to, given
/// the page's `a` elements.
pub fn annas_file_link_in(links: &Vec<HtmlElement>) -> (r: Option<String>)
    ensures
        r.deep_view() == annas_file_link(links.deep_view()),
{
    let ghost lv = links.deep_view();
    let mut i: usize = 0;
    assert(lv.skip(0) =~= lv);
    while i < links.len()
        invariant
            i <= links.len(),
            lv == links.deep_view(),
            annas_file_link(lv) == annas_file_link(lv.skip(i as int)),
        decreases links.len() - i,
    {
        let ghost rest = lv.skip(i as int);
        assert(rest.drop_first() =~= lv.skip(i + 1));
        assert(rest[0] == links[i as int].deep_view());
        if let Some(h) = href_of(&links[i]) {
            if is_file_link(&links[i], &h) {
                return Some(string_of(&h));
            }
        }
        i = i + 1;
    }
    assert(lv.skip(links.len() as int) =~= Seq::<ElementView>::empty());
    None
}

/// The address of the file that an Anna's Archive book page links to.
pub fn extract_annas_detail_download_url(body: &str) -> (r: Option<String>)
    ensures
        r.deep_view() == annas_file_link(selected(body@, "a"@)),
{
    let links = select_elements(body, "a");
    annas_file_link_in(&links)
}

/// The address of the Anna's Archive search for `query` in language `lang`.
pub fn annas_search_url(query: &str, lang: &str) -> (r: String)
    ensures
        r@ == "https://annas-archive.org/search?q="@ + url_encoded(query@) + "&lang="@ + lang@
            + "&ext="@,
{
    let mut out: Vec<char> = Vec::new();
    append_str(&mut out, "https://annas-archive.org/search?q=");
    let q = url_encode(query);
    append_str(&mut out, q.as_str());
    append_str(&mut out, "&lang=");
    append_str(&mut out, lang);
    append_str(&mut out, "&ext=");
    string_of(&out)
}

/// The address of the Anna's Archive page of the book with MD5 `md5`.
pub fn annas_book_url(md5: &str) -> (r: String)
    ensures
        r@ == "https://annas-archive.org/md5/"@ + md5@,
{
    let mut out: Vec<char> = Vec::new();
    append_str(&mut out, "https://annas-archive.org/md5/");
    append_str(&mut out, md5);
    string_of(&out)
}


/// Every book read from an Anna's Archive search page is downloaded under the
/// MD5 its link carries, which is also its identifier, and its source name
/// starts with `annas-archive`.
pub proof fn lemma_annas_books_shape(anchors: Seq<ElementView>, n: int)
    ensures
        forall|k: int|
            0 <= k < annas_books(anchors, n).len() ==> {
                let b = #[trigger] annas_books(anchors, n)[k];
                &&& b.id == b.download_id
                &&& starts_with(b.provider, "annas-archive"@)
                &&& exists|j: int| 0 <= j < n && anchor_md5(anchors[j]) == Some(b.id)
            },
    decreases n,
{
    if n > 0 {
        lemma_annas_books_shape(anchors, n - 1);
        let prev = annas_books(anchors, n - 1);
        let cur = annas_books(anchors, n);
        assert forall|k: int| 0 <= k < cur.len() implies {
            let b = #[trigger] cur[k];
            &&& b.id == b.download_id
            &&& starts_with(b.provider, "annas-archive"@)
            &&& exists|j: int| 0 <= j < n && anchor_md5(anchors[j]) == Some(b.id)
        } by {
            if k < prev.len() {
                assert(cur[k] == prev[k]);
                let j = choose|j: int| 0 <= j < n - 1 && anchor_md5(anchors[j]) == Some(prev[k].id);
                assert(0 <= j < n && anchor_md5(anchors[j]) == Some(cur[k].id));
            } else {
                let p = cur[k].provider;
                assert(p.subrange(0, "annas-archive"@.len() as int) =~= "annas-archive"@);
                assert(anchor_md5(anchors[n - 1]) == Some(cur[k].id));
            }
        }
    }
}

/// Every MD5 that a link on a search page carries is listed once, and the
/// book listed under it is the one that the first link carrying it
/// describes: later links with the same MD5 are passed over.
pub proof fn lemma_annas_books_first_link(anchors: Seq<ElementView>, n: int)
    requires
        0 <= n <= anchors.len(),
    ensures
        forall|k: int|
            0 <= k < n && (#[trigger] anchor_md5(anchors[k])) is Some ==> has_id(
                annas_books(anchors, n),
                anchor_md5(anchors[k])->Some_0,
            ),
        forall|i: int|
            0 <= i < annas_books(anchors, n).len() ==> exists|k: int|
                0 <= k < n && anchor_md5(anchors[k]) == Some(
                    (#[trigger] annas_books(anchors, n)[i]).id,
                ) && annas_books(anchors, n)[i] == annas_entry(
                    anchors[k],
                    annas_books(anchors, n)[i].id,
                ) && forall|j: int|
                    0 <= j < k ==> anchor_md5(anchors[j]) != Some(annas_books(anchors, n)[i].id),
    decreases n,
{
    if n > 0 {
        lemma_annas_books_first_link(anchors, n - 1);
        let prev = annas_books(anchors, n - 1);
        let cur = annas_books(anchors, n);
        assert forall|k: int|
            0 <= k < n && (#[trigger] anchor_md5(anchors[k])) is Some implies has_id(
                cur,
                anchor_md5(anchors[k])->Some_0,
            ) by {
            let m = anchor_md5(anchors[k])->Some_0;
            if has_id(prev, m) {
                let q = choose|q: int| 0 <= q < prev.len() && prev[q].id == m;
                assert(cur[q] == prev[q]);
            } else {
                assert(k == n - 1);
                assert(cur[prev.len() as int].id == m);
            }
        }
        assert forall|i: int| 0 <= i < cur.len() implies exists|k: int|
            0 <= k < n && anchor_md5(anchors[k]) == Some((#[trigger] cur[i]).id) && cur[i]
                == annas_entry(anchors[k], cur[i].id) && forall|j: int|
                0 <= j < k ==> anchor_md5(anchors[j]) != Some(cur[i].id) by {
            if i < prev.len() {
                assert(cur[i] == prev[i]);
                let k = choose|k: int|
                    0 <= k < n - 1 && anchor_md5(anchors[k]) == Some((#[trigger] prev[i]).id)
                        && prev[i] == annas_entry(anchors[k], prev[i].id) && forall|j: int|
                        0 <= j < k ==> anchor_md5(anchors[j]) != Some(prev[i].id);
                assert(0 <= k < n);
            } else {
                let m = anchor_md5(anchors[n - 1])->Some_0;
                assert(!has_id(prev, m));
                assert forall|j: int| 0 <= j < n - 1 implies anchor_md5(anchors[j]) != Some(m) by {
                    if anchor_md5(anchors[j]) == Some(m) {
                        assert(anchor_md5(anchors[j]) is Some);
                    }
                }
                assert(cur[i] == annas_entry(anchors[n - 1], m));
            }
        }
    }
}

} // verus!
