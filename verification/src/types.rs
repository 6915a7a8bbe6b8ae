//! The values that searches and downloads produce.
use vstd::prelude::*;

use crate::text::{append_str, contains, occurs_at, owned, string_of};

verus! {

/// One book found by a search.
#[derive(Debug, Clone)]
pub struct BookResult {
    pub id: String,
    pub title: String,
    pub author: String,
    pub format: String,
    pub size: String,
    pub provider: String,
    pub download_id: String,
}

/// The plain value of a [`BookResult`].
pub struct BookView {
    pub id: Seq<char>,
    pub title: Seq<char>,
    pub author: Seq<char>,
    pub format: Seq<char>,
    pub size: Seq<char>,
    pub provider: Seq<char>,
    pub download_id: Seq<char>,
}

impl View for BookResult {
    type V = BookView;

    open spec fn view(&self) -> BookView {
        BookView {
            id: self.id@,
            title: self.title@,
            author: self.author@,
            format: self.format@,
            size: self.size@,
            provider: self.provider@,
            download_id: self.download_id@,
        }
    }
}

impl DeepView for BookResult {
    type V = BookView;

    open spec fn deep_view(&self) -> BookView {
        self.view()
    }
}

/// One step of a streamed download.
#[derive(Debug, Clone)]
#[allow(inconsistent_fields)]
pub enum DownloadEvent {
    /// First event: what is being downloaded and under which file name.
    FileInfo {
        title: String,
        author: String,
        format: String,
        filename: String,
        total_bytes: Option<u64>,
    },
    /// A piece of the file, with the number of bytes received so far.
    Data { bytes: Vec<u8>, downloaded: u64 },
    /// The download is complete.
    Done { filename: String, total_bytes: u64 },
}

/// The plain value of a [`DownloadEvent`].
pub enum EventView {
    Info {
        title: Seq<char>,
        author: Seq<char>,
        format: Seq<char>,
        filename: Seq<char>,
        total: Option<u64>,
    },
    Data { bytes: Seq<u8>, downloaded: u64 },
    Done { filename: Seq<char>, total: u64 },
}

impl View for DownloadEvent {
    type V = EventView;

    open spec fn view(&self) -> EventView {
        match self {
            DownloadEvent::FileInfo { title, author, format, filename, total_bytes } => {
                EventView::Info {
                    title: title@,
                    author: author@,
                    format: format@,
                    filename: filename@,
                    total: *total_bytes,
                }
            },
            DownloadEvent::Data { bytes, downloaded } => EventView::Data {
                bytes: bytes@,
                downloaded: *downloaded,
            },
            DownloadEvent::Done { filename, total_bytes } => EventView::Done {
                filename: filename@,
                total: *total_bytes,
            },
        }
    }
}

/// How a book is shown in a listing:
/// `[provider] [format] title - author (size, id)`.
pub open spec fn display_line(b: BookView) -> Seq<char> {
    seq!['['] + b.provider + seq![']', ' ', '['] + b.format + seq![']', ' '] + b.title + seq![
        ' ',
        '-',
        ' ',
    ] + b.author + seq![' ', '('] + b.size + seq![',', ' '] + b.id + seq![')']
}

impl BookResult {
    /// The line under which the book is listed (see [`display_line`]).
    pub fn to_display_string(&self) -> (r: String)
        ensures
            r@ == display_line(self@),
    {
        let mut out: Vec<char> = Vec::new();
        append_str(&mut out, "[");
        append_str(&mut out, self.provider.as_str());
        append_str(&mut out, "] [");
        append_str(&mut out, self.format.as_str());
        append_str(&mut out, "] ");
        append_str(&mut out, self.title.as_str());
        append_str(&mut out, " - ");
        append_str(&mut out, self.author.as_str());
        append_str(&mut out, " (");
        append_str(&mut out, self.size.as_str());
        append_str(&mut out, ", ");
        append_str(&mut out, self.id.as_str());
        append_str(&mut out, ")");
        proof {
            reveal_strlit("[");
            reveal_strlit("] [");
            reveal_strlit("] ");
            reveal_strlit(" - ");
            reveal_strlit(" (");
            reveal_strlit(", ");
            reveal_strlit(")");
        }
        assert(out@ =~= display_line(self@));
        string_of(&out)
    }

    /// The placeholder a download starts from when only the source and the
    /// identifier are known: the identifier doubles as title and download
    /// identifier, and the other fields are empty.
    pub fn from_id(provider: &str, id: &str) -> (r: BookResult)
        ensures
            r@.id == id@,
            r@.title == id@,
            r@.author == Seq::<char>::empty(),
            r@.format == Seq::<char>::empty(),
            r@.size == Seq::<char>::empty(),
            r@.provider == provider@,
            r@.download_id == id@,
    {
        BookResult {
            id: owned(id),
            title: owned(id),
            author: String::new(),
            format: String::new(),
            size: String::new(),
            provider: owned(provider),
            download_id: owned(id),
        }
    }
}

/// The line a book is listed under reads, from left to right: `[`, the
/// source, `] [`, the format, `] `, the title, ` - `, the author, ` (`, the
/// size, `, `, the identifier and `)`, and nothing else.
pub proof fn lemma_display_layout(b: BookView)
    ensures
        ({
            let s = display_line(b);
            let f0: int = 1 + b.provider.len() as int + 3;
            let t0: int = f0 + b.format.len() + 2;
            let a0: int = t0 + b.title.len() + 3;
            let z0: int = a0 + b.author.len() + 2;
            let i0: int = z0 + b.size.len() + 2;
            &&& s.len() == i0 + b.id.len() + 1
            &&& s.subrange(0, 1) == seq!['[']
            &&& s.subrange(1, 1 + b.provider.len() as int) == b.provider
            &&& s.subrange(1 + b.provider.len() as int, f0) == seq![']', ' ', '[']
            &&& s.subrange(f0, f0 + b.format.len() as int) == b.format
            &&& s.subrange(f0 + b.format.len() as int, t0) == seq![']', ' ']
            &&& s.subrange(t0, t0 + b.title.len() as int) == b.title
            &&& s.subrange(t0 + b.title.len() as int, a0) == seq![' ', '-', ' ']
            &&& s.subrange(a0, a0 + b.author.len() as int) == b.author
            &&& s.subrange(a0 + b.author.len() as int, z0) == seq![' ', '(']
            &&& s.subrange(z0, z0 + b.size.len() as int) == b.size
            &&& s.subrange(z0 + b.size.len() as int, i0) == seq![',', ' ']
            &&& s.subrange(i0, i0 + b.id.len() as int) == b.id
            &&& s.subrange(i0 + b.id.len() as int, s.len() as int) == seq![')']
        }),
{
    let s = display_line(b);
    let f0: int = 1 + b.provider.len() as int + 3;
    let t0: int = f0 + b.format.len() + 2;
    let a0: int = t0 + b.title.len() + 3;
    let z0: int = a0 + b.author.len() + 2;
    let i0: int = z0 + b.size.len() + 2;
    assert(s.subrange(0, 1) =~= seq!['[']);
    assert(s.subrange(1, 1 + b.provider.len() as int) =~= b.provider);
    assert(s.subrange(1 + b.provider.len() as int, f0) =~= seq![']', ' ', '[']);
    assert(s.subrange(f0, f0 + b.format.len() as int) =~= b.format);
    assert(s.subrange(f0 + b.format.len() as int, t0) =~= seq![']', ' ']);
    assert(s.subrange(t0, t0 + b.title.len() as int) =~= b.title);
    assert(s.subrange(t0 + b.title.len() as int, a0) =~= seq![' ', '-', ' ']);
    assert(s.subrange(a0, a0 + b.author.len() as int) =~= b.author);
    assert(s.subrange(a0 + b.author.len() as int, z0) =~= seq![' ', '(']);
    assert(s.subrange(z0, z0 + b.size.len() as int) =~= b.size);
    assert(s.subrange(z0 + b.size.len() as int, i0) =~= seq![',', ' ']);
    assert(s.subrange(i0, i0 + b.id.len() as int) =~= b.id);
    assert(s.subrange(i0 + b.id.len() as int, s.len() as int) =~= seq![')']);
}

/// Every field of a book appears in the line it is listed under.
pub proof fn lemma_display_shows_all_fields(b: BookView)
    ensures
        contains(display_line(b), b.provider),
        contains(display_line(b), b.format),
        contains(display_line(b), b.title),
        contains(display_line(b), b.author),
        contains(display_line(b), b.size),
        contains(display_line(b), b.id),
{
    let s = display_line(b);
    let p0 = 1int;
    let f0 = p0 + b.provider.len() + 3;
    let t0 = f0 + b.format.len() + 2;
    let a0 = t0 + b.title.len() + 3;
    let z0 = a0 + b.author.len() + 2;
    let i0 = z0 + b.size.len() + 2;
    assert(s.subrange(p0, p0 + b.provider.len()) =~= b.provider);
    assert(s.subrange(f0, f0 + b.format.len()) =~= b.format);
    assert(s.subrange(t0, t0 + b.title.len()) =~= b.title);
    assert(s.subrange(a0, a0 + b.author.len()) =~= b.author);
    assert(s.subrange(z0, z0 + b.size.len()) =~= b.size);
    assert(s.subrange(i0, i0 + b.id.len()) =~= b.id);
    assert(occurs_at(s, b.provider, p0));
    assert(occurs_at(s, b.format, f0));
    assert(occurs_at(s, b.title, t0));
    assert(occurs_at(s, b.author, a0));
    assert(occurs_at(s, b.size, z0));
    assert(occurs_at(s, b.id, i0));
}

} // verus!
