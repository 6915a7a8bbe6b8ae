//! File names for downloaded books.
use vstd::prelude::*;

use crate::pattern::{capture_group, regex_capture};
use crate::text::{
    alphanumeric, append_str, chars_of, is_alphanumeric, is_ws, lemma_trim_end_prefix, lemma_trim_ends,
    lemma_trim_fixed,
    lemma_trim_idempotent, lemma_trim_start_suffix, string_of, take_chars, take_prefix, trim,
    trim_chars, trim_start,
};

verus! {

/// The character that stands for `c` in a file name: letters, digits, space,
/// `-` and `_` stay, anything else becomes `_`.
pub open spec fn safe_char(c: char) -> char {
    if alphanumeric(c) || c == ' ' || c == '-' || c == '_' {
        c
    } else {
        '_'
    }
}

/// `s` with every character replaced by its [`safe_char`].
pub open spec fn sanitized(s: Seq<char>) -> Seq<char> {
    s.map_values(|c: char| safe_char(c))
}

/// The characters of `s`, each replaced by its [`safe_char`].
pub fn sanitize_chars(s: &Vec<char>) -> (r: Vec<char>)
    ensures
        r@ == sanitized(s@),
{
    let mut r: Vec<char> = Vec::new();
    let mut i: usize = 0;
    while i < s.len()
        invariant
            i <= s.len(),
            r@ == sanitized(s@.take(i as int)),
        decreases s.len() - i,
    {
        let c = s[i];
        let d = if is_alphanumeric(c) || c == ' ' || c == '-' || c == '_' {
            c
        } else {
            '_'
        };
        r.push(d);
        i = i + 1;
        assert(r@ =~= sanitized(s@.take(i as int)));
    }
    assert(s@.take(s.len() as int) =~= s@);
    r
}

/// A file name made from `name`: unsafe characters replaced by `_`, then
/// leading and trailing whitespace removed.
pub fn sanitize_filename(name: &str) -> (r: String)
    ensures
        r@ == trim(sanitized(name@)),
{
    let cs = chars_of(name);
    let safe = sanitize_chars(&cs);
    let t = trim_chars(&safe);
    string_of(&t)
}

/// Making a name safe keeps its length and works character by character:
/// each letter or digit, space, `-` and `_` stays where it is, and every
/// other character becomes `_`.
pub proof fn lemma_sanitized_chars(s: Seq<char>)
    ensures
        sanitized(s).len() == s.len(),
        forall|i: int|
            0 <= i < s.len() && (alphanumeric(s[i]) || s[i] == ' ' || s[i] == '-' || s[i] == '_')
                ==> #[trigger] sanitized(s)[i] == s[i],
        forall|i: int|
            0 <= i < s.len() && !(alphanumeric(s[i]) || s[i] == ' ' || s[i] == '-' || s[i]
                == '_') ==> #[trigger] sanitized(s)[i] == '_',
{
}

/// A name made only of letters, digits, spaces, `-` and `_` is kept as it
/// is, only trimmed.
pub proof fn lemma_sanitize_keeps_safe_names(name: Seq<char>)
    requires
        forall|i: int|
            0 <= i < name.len() ==> alphanumeric(#[trigger] name[i]) || name[i] == ' ' || name[i]
                == '-' || name[i] == '_',
    ensures
        trim(sanitized(name)) == trim(name),
{
    lemma_sanitized_chars(name);
    assert(sanitized(name) =~= name);
}

/// Every character of `trim(s)` is a character of `s`.
pub proof fn lemma_trim_within(s: Seq<char>)
    ensures
        forall|i: int| 0 <= i < trim(s).len() ==> s.contains(#[trigger] trim(s)[i]),
{
    lemma_trim_start_suffix(s);
    lemma_trim_end_prefix(trim_start(s));
    let off = s.len() - trim_start(s).len();
    assert forall|i: int| 0 <= i < trim(s).len() implies s.contains(#[trigger] trim(s)[i]) by {
        assert(trim(s)[i] == trim_start(s)[i]);
        assert(trim_start(s)[i] == s[off + i]);
    }
}

/// Making a file name of a file name changes nothing.
pub proof fn lemma_sanitize_idempotent(name: Seq<char>)
    ensures
        trim(sanitized(trim(sanitized(name)))) == trim(sanitized(name)),
{
    let s1 = sanitized(name);
    let t = trim(s1);
    lemma_trim_within(s1);
    assert forall|i: int| 0 <= i < t.len() implies safe_char(#[trigger] t[i]) == t[i] by {
        assert(s1.contains(t[i]));
        let k = choose|k: int| 0 <= k < s1.len() && s1[k] == t[i];
        assert(s1[k] == safe_char(name[k]));
    }
    assert(sanitized(t) =~= t);
    lemma_trim_idempotent(s1);
}

/// The pattern that finds the file name in a `Content-Disposition` header.
pub open spec fn disposition_pattern() -> Seq<char> {
    "filename=\"?([^\";\r\n]+)\"?"@
}

/// The file name a download falls back to: the book's title made safe, cut to
/// 100 characters and trimmed, then a dot and the book's format (`bin` when it
/// has none).
pub open spec fn fallback_filename(title: Seq<char>, format: Seq<char>) -> Seq<char> {
    trim(take_chars(sanitized(title), 100)) + seq!['.'] + if format.len() == 0 {
        seq!['b', 'i', 'n']
    } else {
        format
    }
}

/// Without a usable header, a download is named `stem.ext`: `ext` is the
/// book's format, or `bin` when it has none; the stem holds at most 100
/// characters, neither starts nor ends with whitespace, and holds only
/// letters, digits, spaces, `-` and `_`. A title that already is such a stem
/// is the stem itself.
pub proof fn lemma_fallback_filename(title: Seq<char>, format: Seq<char>)
    ensures
        ({
            let stem = trim(take_chars(sanitized(title), 100));
            &&& fallback_filename(title, format) == stem + seq!['.'] + if format.len() == 0 {
                seq!['b', 'i', 'n']
            } else {
                format
            }
            &&& stem.len() <= 100
            &&& stem.len() > 0 ==> !is_ws(stem[0]) && !is_ws(stem.last())
            &&& forall|i: int|
                0 <= i < stem.len() ==> alphanumeric(#[trigger] stem[i]) || stem[i] == ' '
                    || stem[i] == '-' || stem[i] == '_'
            &&& ((title.len() <= 100 && (title.len() > 0 ==> !is_ws(title[0]) && !is_ws(
                title.last(),
            )) && forall|i: int|
                0 <= i < title.len() ==> alphanumeric(#[trigger] title[i]) || title[i] == ' '
                    || title[i] == '-' || title[i] == '_') ==> stem == title)
        }),
{
    let cut = take_chars(sanitized(title), 100);
    let stem = trim(cut);
    lemma_sanitized_chars(title);
    lemma_trim_start_suffix(cut);
    lemma_trim_end_prefix(trim_start(cut));
    lemma_trim_ends(cut);
    let off = cut.len() - trim_start(cut).len();
    assert forall|i: int| 0 <= i < stem.len() implies alphanumeric(#[trigger] stem[i]) || stem[i]
        == ' ' || stem[i] == '-' || stem[i] == '_' by {
        assert(stem[i] == trim_start(cut)[i]);
        assert(trim_start(cut)[i] == cut[off + i]);
        assert(cut[off + i] == sanitized(title)[off + i]);
    }
    if title.len() <= 100 && (title.len() > 0 ==> !is_ws(title[0]) && !is_ws(title.last()))
        && forall|i: int|
        0 <= i < title.len() ==> alphanumeric(#[trigger] title[i]) || title[i] == ' ' || title[i]
            == '-' || title[i] == '_' {
        assert(sanitized(title) =~= title);
        assert(cut == title);
        lemma_trim_fixed(title);
    }
}

/// The file name a download is saved under: the name the server gives in its
/// `Content-Disposition` header, trimmed, where there is one; otherwise
/// [`fallback_filename`].
pub open spec fn download_filename(
    title: Seq<char>,
    format: Seq<char>,
    disposition: Option<Seq<char>>,
) -> Seq<char> {
    match disposition {
        Some(v) => match regex_capture(disposition_pattern(), v, 1) {
            Some(name) => trim(name),
            None => fallback_filename(title, format),
        },
        None => fallback_filename(title, format),
    }
}

/// The file name for downloading `book`, given the server's
/// `Content-Disposition` header value, if it sent one that reads as text.
pub fn resolve_filename(book: &crate::types::BookResult, disposition: Option<&str>) -> (r: String)
    ensures
        r@ == download_filename(
            book@.title,
            book@.format,
            match disposition {
                Some(v) => Some(v@),
                None => None,
            },
        ),
{
    if let Some(v) = disposition {
        if let Some(name) = capture_group("filename=\"?([^\";\r\n]+)\"?", v, 1) {
            let cs = chars_of(name.as_str());
            let t = trim_chars(&cs);
            return string_of(&t);
        }
    }
    let title = chars_of(book.title.as_str());
    let safe = sanitize_chars(&title);
    let cut = take_prefix(&safe, 100);
    let mut out = trim_chars(&cut);
    append_str(&mut out, ".");
    if book.format.as_str().is_empty() {
        append_str(&mut out, "bin");
    } else {
        append_str(&mut out, book.format.as_str());
    }
    proof {
        reveal_strlit(".");
        reveal_strlit("bin");
    }
    assert(out@ =~= fallback_filename(book@.title, book@.format));
    string_of(&out)
}

} // verus!
