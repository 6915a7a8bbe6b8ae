//! The decisions of a streamed download, as a state machine.
//!
//! A [`Session`] decides; its caller does the work. Each decision is an
//! [`Action`] (fetch an address, read a body, hand on an event, report a
//! failure, stop); the caller carries it out and reports what came of it as
//! an [`Outcome`], which [`Session::step`] turns into the next decision.
use vstd::prelude::*;

use crate::filenames::{download_filename, resolve_filename};
use crate::html::{select_elements, selected};
use crate::providers::annas_archive::{
    annas_book_url, annas_file_link, annas_file_link_in, lemma_annas_file_link_first, leads_to_file,
};
use crate::providers::archive::{
    archive_download_plan, archive_metadata_url, archive_output_name, is_original, is_pdf_candidate,
    lemma_preferred_pdf, preferred_pdf, FileEntry,
};
use crate::providers::gutenberg::{gutenberg_epub3_url, gutenberg_epub_url, gutenberg_filename};
use crate::providers::libgen::{file_link_in, is_file_link, libgen_ads_url, libgen_file_link, lemma_libgen_file_link_first};
use crate::providers::ProviderKind;
use crate::encode::url_encoded;
use crate::filenames::sanitized;
use crate::text::{append_str, chars_of, owned, starts_with, string_of, strip_leading, trim};
use crate::types::{BookResult, BookView, DownloadEvent, EventView};

verus! {

/// Where a download stands.
#[derive(Debug, Clone, Copy, PartialEq, Eq, Structural)]
pub enum Stage {
    /// Gutenberg: waiting for the EPUB 3 address to answer.
    GutenbergPrimary,
    /// Gutenberg: waiting for the older EPUB address to answer.
    GutenbergFallback,
    /// LibGen: waiting for the download page to answer.
    LibgenAds,
    /// LibGen: waiting for the download page's text.
    LibgenAdsBody,
    /// Anna's Archive: waiting for the LibGen download page to answer.
    AnnasAds,
    /// Anna's Archive: waiting for the LibGen download page's text.
    AnnasAdsBody,
    /// Anna's Archive: waiting for its own book page to answer.
    AnnasDetail,
    /// Anna's Archive: waiting for its own book page's text.
    AnnasDetailBody,
    /// Archive: waiting for the item's file listing to answer.
    ArchiveListing,
    /// Archive: waiting for the item's file listing to be read.
    ArchiveListingBody,
    /// Waiting for the file's address to answer; any answer will do.
    File,
    /// Waiting for the file's address to answer; only a success will do.
    CheckedFile,
    /// The file's details have been handed on.
    SendingInfo,
    /// Waiting for the next piece of the file.
    Reading,
    /// A piece of the file has been handed on.
    SendingData,
    /// The end of the download has been handed on.
    SendingDone,
    /// Nothing more to do.
    Finished,
}

/// What came of the last action.
pub enum Outcome {
    /// The address answered.
    Response {
        success: bool,
        status: String,
        content_length: Option<u64>,
        content_disposition: Option<String>,
    },
    /// The answer's body, as text.
    Text { body: String },
    /// The files that an Archive listing names.
    Listing { files: Vec<FileEntry> },
    /// The next piece of the file.
    Chunk { bytes: Vec<u8> },
    /// The file has been read to its end.
    End,
    /// Whether the event reached its receiver.
    Sent { delivered: bool },
    /// The request or read failed, with what the error says.
    Failed { message: String },
}

/// The plain value of an [`Outcome`].
pub enum OutcomeView {
    Response {
        success: bool,
        status: Seq<char>,
        content_length: Option<u64>,
        content_disposition: Option<Seq<char>>,
    },
    Text { body: Seq<char> },
    Listing { files: Seq<FileEntry> },
    Chunk { bytes: Seq<u8> },
    End,
    Sent { delivered: bool },
    Failed { message: Seq<char> },
}

impl View for Outcome {
    type V = OutcomeView;

    open spec fn view(&self) -> OutcomeView {
        match self {
            Outcome::Response { success, status, content_length, content_disposition } => {
                OutcomeView::Response {
                    success: *success,
                    status: status@,
                    content_length: *content_length,
                    content_disposition: content_disposition.deep_view(),
                }
            },
            Outcome::Text { body } => OutcomeView::Text { body: body@ },
            Outcome::Listing { files } => OutcomeView::Listing { files: files@ },
            Outcome::Chunk { bytes } => OutcomeView::Chunk { bytes: bytes@ },
            Outcome::End => OutcomeView::End,
            Outcome::Sent { delivered } => OutcomeView::Sent { delivered: *delivered },
            Outcome::Failed { message } => OutcomeView::Failed { message: message@ },
        }
    }
}

/// What the caller is to do next.
pub enum Action {
    /// Fetch the address and report the answer.
    Get { url: String },
    /// Read the answer's body as text.
    ReadText,
    /// Read the answer's body as an Archive file listing.
    ReadListing,
    /// Read the next piece of the answer's body.
    ReadChunk,
    /// Hand the event on and report whether it arrived.
    Emit { event: DownloadEvent },
    /// Hand the failure on; the download is over.
    Fail { message: String },
    /// The download is over.
    Stop,
}

/// The plain value of an [`Action`].
pub enum ActionView {
    Get { url: Seq<char> },
    ReadText,
    ReadListing,
    ReadChunk,
    Emit { event: EventView },
    Fail { message: Seq<char> },
    Stop,
}

impl View for Action {
    type V = ActionView;

    open spec fn view(&self) -> ActionView {
        match self {
            Action::Get { url } => ActionView::Get { url: url@ },
            Action::ReadText => ActionView::ReadText,
            Action::ReadListing => ActionView::ReadListing,
            Action::ReadChunk => ActionView::ReadChunk,
            Action::Emit { event } => ActionView::Emit { event: event@ },
            Action::Fail { message } => ActionView::Fail { message: message@ },
            Action::Stop => ActionView::Stop,
        }
    }
}

/// A download in progress.
pub struct Session {
    /// The source the book comes from.
    pub provider: ProviderKind,
    /// The book being downloaded.
    pub book: BookResult,
    /// Where the download stands.
    pub stage: Stage,
    /// The name the file is saved under, once known.
    pub filename: String,
    /// How many bytes have been received.
    pub downloaded: u64,
    /// The events handed on so far.
    pub log: Ghost<Seq<EventView>>,
}

/// The plain value of a [`Session`].
pub struct SessionView {
    pub provider: ProviderKind,
    pub book: BookView,
    pub stage: Stage,
    pub filename: Seq<char>,
    pub downloaded: u64,
    pub log: Seq<EventView>,
}

impl View for Session {
    type V = SessionView;

    open spec fn view(&self) -> SessionView {
        SessionView {
            provider: self.provider,
            book: self.book@,
            stage: self.stage,
            filename: self.filename@,
            downloaded: self.downloaded,
            log: self.log@,
        }
    }
}

// ---------------------------------------------------------------------------
// The rules
// ---------------------------------------------------------------------------

/// How many bytes the data events of `log` carry together.
pub open spec fn data_total(log: Seq<EventView>) -> nat
    decreases log.len(),
{
    if log.len() == 0 {
        0
    } else {
        data_total(log.drop_last()) + match log.last() {
            EventView::Data { bytes, .. } => bytes.len(),
            _ => 0,
        }
    }
}

/// Whether the stage comes before the file's details are handed on.
pub open spec fn is_before_info(stage: Stage) -> bool {
    !(stage == Stage::SendingInfo || stage == Stage::Reading || stage == Stage::SendingData
        || stage == Stage::SendingDone || stage == Stage::Finished)
}

/// What every session keeps true of the events it has handed on: the file's
/// details come first and only first; each piece of data carries the count
/// of bytes handed on up to and including it; the end comes last, carries the
/// file name of the details and the count of all bytes; and the session's
/// own count is the count of all bytes.
pub open spec fn session_wf(s: SessionView) -> bool {
    let log = s.log;
    &&& s.downloaded == data_total(log)
    &&& log.len() > 0 ==> log[0] is Info
    &&& forall|i: int| 0 < i < log.len() ==> !(#[trigger] log[i] is Info)
    &&& forall|i: int|
        0 <= i < log.len() && #[trigger] log[i] is Data ==> log[i]->Data_downloaded == data_total(
            log.take(i + 1),
        )
    &&& forall|i: int|
        0 <= i < log.len() && #[trigger] log[i] is Done ==> i == log.len() - 1
            && log[i]->Done_total == data_total(log) && log[i]->Done_filename
            == log[0]->Info_filename
    &&& is_before_info(s.stage) ==> log.len() == 0
    &&& (s.stage == Stage::SendingInfo || s.stage == Stage::Reading || s.stage
        == Stage::SendingData) ==> log.len() > 0 && log[0]->Info_filename == s.filename && !(
    log.last() is Done)
    &&& s.stage == Stage::SendingDone ==> log.len() > 0 && log.last() is Done
}

/// The session with a new stage.
pub open spec fn at(s: SessionView, stage: Stage) -> SessionView {
    SessionView { stage: stage, ..s }
}

/// The session ends, with the action `a`.
pub open spec fn end_with(s: SessionView, a: ActionView) -> (SessionView, ActionView) {
    (at(s, Stage::Finished), a)
}

/// The session ends quietly.
pub open spec fn stop(s: SessionView) -> (SessionView, ActionView) {
    end_with(s, ActionView::Stop)
}

/// The session ends with the failure `message`.
pub open spec fn fail(s: SessionView, message: Seq<char>) -> (SessionView, ActionView) {
    end_with(s, ActionView::Fail { message })
}

/// The session moves on to `stage` and fetches `url`.
pub open spec fn fetch(s: SessionView, stage: Stage, url: Seq<char>) -> (SessionView, ActionView) {
    (at(s, stage), ActionView::Get { url })
}

/// The file has answered: its details, under `filename` and in `format`, are
/// handed on.
pub open spec fn announce(
    s: SessionView,
    filename: Seq<char>,
    format: Seq<char>,
    total: Option<u64>,
) -> (SessionView, ActionView) {
    let ev = EventView::Info {
        title: s.book.title,
        author: s.book.author,
        format: format,
        filename: filename,
        total: total,
    };
    (
        SessionView { stage: Stage::SendingInfo, filename: filename, log: s.log.push(ev), ..s },
        ActionView::Emit { event: ev },
    )
}

/// The message for an address that answered with a failure status `status`.
pub open spec fn status_message(status: Seq<char>, id: Seq<char>) -> Seq<char> {
    "Download failed with status "@ + status + " for book "@ + id
}

/// The message for an Archive file that answered with a failure status.
pub open spec fn http_status_message(status: Seq<char>) -> Seq<char> {
    "Download failed with HTTP status "@ + status
}

/// The next state and action of a session `s` on the outcome `o` of its last
/// action. An outcome that does not answer the last action ends the session.
pub open spec fn transition(s: SessionView, o: OutcomeView) -> (SessionView, ActionView) {
    match s.stage {
        Stage::GutenbergPrimary => match o {
            OutcomeView::Response { success: true, content_length, .. } => announce(
                s,
                s.filename,
                "epub"@,
                content_length,
            ),
            _ => fetch(
                s,
                Stage::GutenbergFallback,
                "https://www.gutenberg.org/ebooks/"@ + s.book.download_id + ".epub.images"@,
            ),
        },
        Stage::GutenbergFallback => match o {
            OutcomeView::Response { success, status, content_length, .. } => if success {
                announce(s, s.filename, "epub"@, content_length)
            } else {
                fail(s, status_message(status, s.book.download_id))
            },
            OutcomeView::Failed { message } => fail(s, message),
            _ => stop(s),
        },
        Stage::LibgenAds => match o {
            OutcomeView::Response { .. } => (at(s, Stage::LibgenAdsBody), ActionView::ReadText),
            OutcomeView::Failed { message } => fail(s, message),
            _ => stop(s),
        },
        Stage::LibgenAdsBody => match o {
            OutcomeView::Text { body } => match libgen_file_link(selected(body, "a"@)) {
                Some(u) => fetch(s, Stage::File, u),
                None => fail(s, "No download link found on LibGen ads page"@),
            },
            OutcomeView::Failed { message } => fail(s, message),
            _ => stop(s),
        },
        Stage::AnnasAds => match o {
            OutcomeView::Response { .. } => (at(s, Stage::AnnasAdsBody), ActionView::ReadText),
            OutcomeView::Failed { .. } => fail(
                s,
                "Failed to fetch LibGen ads page for Anna's Archive MD5"@,
            ),
            _ => stop(s),
        },
        Stage::AnnasAdsBody => match o {
            OutcomeView::Text { body } => match libgen_file_link(selected(body, "a"@)) {
                Some(u) => fetch(s, Stage::File, u),
                None => fetch(
                    s,
                    Stage::AnnasDetail,
                    "https://annas-archive.org/md5/"@ + s.book.download_id,
                ),
            },
            OutcomeView::Failed { .. } => fail(s, "Failed to read ads page body"@),
            _ => stop(s),
        },
        Stage::AnnasDetail => match o {
            OutcomeView::Response { .. } => (at(s, Stage::AnnasDetailBody), ActionView::ReadText),
            OutcomeView::Failed { .. } => fail(s, "Failed to fetch Anna's Archive MD5 detail page"@),
            _ => stop(s),
        },
        Stage::AnnasDetailBody => match o {
            OutcomeView::Text { body } => match annas_file_link(selected(body, "a"@)) {
                Some(u) => fetch(s, Stage::File, u),
                None => fail(s, "No download link found for this book"@),
            },
            OutcomeView::Failed { .. } => fail(s, "Failed to read Anna's Archive detail page"@),
            _ => stop(s),
        },
        Stage::ArchiveListing => match o {
            OutcomeView::Response { .. } => (
                at(s, Stage::ArchiveListingBody),
                ActionView::ReadListing,
            ),
            OutcomeView::Failed { .. } => fail(s, "Archive.org metadata request failed"@),
            _ => stop(s),
        },
        Stage::ArchiveListingBody => match o {
            OutcomeView::Listing { files } => match preferred_pdf(files) {
                Some(i) => match files[i].name {
                    Some(n) => (
                        SessionView {
                            stage: Stage::CheckedFile,
                            filename: archive_output_name(s.book.title, n@),
                            ..s
                        },
                        ActionView::Get {
                            url: "https://archive.org/download/"@ + s.book.download_id + "/"@
                                + url_encoded(n@),
                        },
                    ),
                    None => fail(s, "No downloadable PDF found for this item"@),
                },
                None => fail(s, "No downloadable PDF found for this item"@),
            },
            OutcomeView::Failed { message } => fail(s, message),
            _ => stop(s),
        },
        Stage::File => match o {
            OutcomeView::Response { content_length, content_disposition, .. } => announce(
                s,
                download_filename(s.book.title, s.book.format, content_disposition),
                s.book.format,
                content_length,
            ),
            OutcomeView::Failed { message } => fail(s, message),
            _ => stop(s),
        },
        Stage::CheckedFile => match o {
            OutcomeView::Response { success, status, content_length, .. } => if success {
                announce(s, s.filename, s.book.format, content_length)
            } else {
                fail(s, http_status_message(status))
            },
            OutcomeView::Failed { .. } => fail(s, "Archive.org download request failed"@),
            _ => stop(s),
        },
        Stage::SendingInfo => match o {
            OutcomeView::Sent { delivered: true } => (at(s, Stage::Reading), ActionView::ReadChunk),
            _ => stop(s),
        },
        Stage::Reading => match o {
            OutcomeView::Chunk { bytes } => {
                let d = (s.downloaded + bytes.len()) as u64;
                let ev = EventView::Data { bytes: bytes, downloaded: d };
                (
                    SessionView {
                        stage: Stage::SendingData,
                        downloaded: d,
                        log: s.log.push(ev),
                        ..s
                    },
                    ActionView::Emit { event: ev },
                )
            },
            OutcomeView::End => {
                let ev = EventView::Done { filename: s.filename, total: s.downloaded };
                (
                    SessionView { stage: Stage::SendingDone, log: s.log.push(ev), ..s },
                    ActionView::Emit { event: ev },
                )
            },
            OutcomeView::Failed { message } => fail(s, message),
            _ => stop(s),
        },
        Stage::SendingData => match o {
            OutcomeView::Sent { delivered: true } => (at(s, Stage::Reading), ActionView::ReadChunk),
            _ => stop(s),
        },
        Stage::SendingDone => stop(s),
        Stage::Finished => stop(s),
    }
}

/// The first state and action of a download of `book` from `provider`.
pub open spec fn initial(provider: ProviderKind, book: BookView) -> (SessionView, ActionView) {
    let base = SessionView {
        provider: provider,
        book: book,
        stage: Stage::Finished,
        filename: Seq::empty(),
        downloaded: 0,
        log: Seq::empty(),
    };
    match provider {
        ProviderKind::Gutenberg => (
            SessionView {
                stage: Stage::GutenbergPrimary,
                filename: trim(sanitized(book.title)) + ".epub"@,
                ..base
            },
            ActionView::Get {
                url: "https://www.gutenberg.org/ebooks/"@ + book.download_id + ".epub3.images"@,
            },
        ),
        ProviderKind::Libgen => (
            SessionView { stage: Stage::LibgenAds, ..base },
            ActionView::Get { url: "https://libgen.li/ads.php?md5="@ + book.download_id },
        ),
        ProviderKind::AnnasArchive => (
            SessionView { stage: Stage::AnnasAds, ..base },
            ActionView::Get { url: "https://libgen.li/ads.php?md5="@ + book.download_id },
        ),
        ProviderKind::Archive => (
            SessionView { stage: Stage::ArchiveListing, ..base },
            ActionView::Get { url: "https://archive.org/metadata/"@ + book.download_id + "/files"@ },
        ),
    }
}

/// The count that a piece of `len` bytes brings the session to fits in a
/// `u64` (only pieces read in the `Reading` stage count).
pub open spec fn chunk_fits(s: SessionView, o: OutcomeView) -> bool {
    s.stage == Stage::Reading ==> match o {
        OutcomeView::Chunk { bytes } => s.downloaded + bytes.len() <= u64::MAX,
        _ => true,
    }
}

// ---------------------------------------------------------------------------
// Laws
// ---------------------------------------------------------------------------

/// Pushing an event that is not data leaves the count of bytes as it is;
/// pushing data adds its length.
pub proof fn lemma_data_total_push(log: Seq<EventView>, e: EventView)
    ensures
        data_total(log.push(e)) == data_total(log) + match e {
            EventView::Data { bytes, .. } => bytes.len(),
            _ => 0,
        },
{
    assert(log.push(e).drop_last() =~= log);
}

/// Every step keeps what a session keeps true of its events
/// (see [`session_wf`]).
pub proof fn lemma_transition_wf(s: SessionView, o: OutcomeView)
    requires
        session_wf(s),
        chunk_fits(s, o),
    ensures
        session_wf(transition(s, o).0),
{
    let (t, a) = transition(s, o);
    let log = s.log;
    if t.log != log {
        let e = t.log.last();
        assert(t.log =~= log.push(e));
        lemma_data_total_push(log, e);
        assert forall|i: int| 0 <= i < log.len() implies #[trigger] t.log.take(i + 1) == log.take(
            i + 1,
        ) by {
            assert(t.log.take(i + 1) =~= log.take(i + 1));
        }
        assert(t.log.take(t.log.len() as int) =~= t.log);
        assert forall|i: int|
            0 <= i < t.log.len() && #[trigger] t.log[i] is Data implies t.log[i]->Data_downloaded
            == data_total(t.log.take(i + 1)) by {
            if i < log.len() {
                assert(t.log[i] == log[i]);
                assert(t.log.take(i + 1) == log.take(i + 1));
            }
        }
        assert forall|i: int|
            0 <= i < t.log.len() && #[trigger] t.log[i] is Done implies i == t.log.len() - 1
            && t.log[i]->Done_total == data_total(t.log) && t.log[i]->Done_filename
            == t.log[0]->Info_filename by {
            if i < log.len() {
                assert(t.log[i] == log[i]);
            }
        }
        assert forall|i: int| 0 < i < t.log.len() implies !(#[trigger] t.log[i] is Info) by {
            if i < log.len() {
                assert(t.log[i] == log[i]);
            }
        }
    }
}

/// A finished session stays finished: it only stops, and nothing changes.
pub proof fn lemma_finished_stays(s: SessionView, o: OutcomeView)
    requires
        s.stage == Stage::Finished,
    ensures
        transition(s, o).0 == s,
        transition(s, o).1 == ActionView::Stop,
{
    assert(transition(s, o).0 =~= s);
}

/// In a well-formed session, the end of the download reports the number of
/// bytes handed on in all pieces, under the file name first announced.
pub proof fn lemma_done_reports_total(s: SessionView)
    requires
        session_wf(s),
        s.log.len() > 0,
        s.log.last() is Done,
    ensures
        s.log.last()->Done_total == data_total(s.log),
        s.log.last()->Done_total == s.downloaded,
        s.log.last()->Done_filename == s.log[0]->Info_filename,
{
    assert(s.log[s.log.len() - 1] is Done);
}

/// On the text of a LibGen download page (read for a LibGen download, or
/// first for an Anna's Archive one), a session follows the page's first link
/// whose `href` holds `get.php` and `md5=`: it fetches that link as it is when
/// it starts with `http`, and otherwise on the LibGen site with its leading
/// slashes dropped, and waits for the file. Only when the page holds no such
/// link does an Anna's Archive download go on to the book's own page on
/// Anna's Archive, while a LibGen download fails.
pub proof fn lemma_ads_page_link(s: SessionView, body: Seq<char>)
    requires
        s.stage == Stage::LibgenAdsBody || s.stage == Stage::AnnasAdsBody,
    ensures
        ({
            let links = selected(body, "a"@);
            let next = transition(s, OutcomeView::Text { body });
            &&& forall|k: int|
                0 <= k < links.len() && is_file_link(#[trigger] links[k]) && (forall|j: int|
                    0 <= j < k ==> !is_file_link(links[j])) ==> next == (
                    SessionView { stage: Stage::File, ..s },
                    ActionView::Get {
                        url: if starts_with(links[k].0->Some_0, "http"@) {
                            links[k].0->Some_0
                        } else {
                            "https://libgen.li/"@ + strip_leading(links[k].0->Some_0, '/')
                        },
                    },
                )
            &&& (forall|j: int| 0 <= j < links.len() ==> !is_file_link(#[trigger] links[j]))
                ==> next == if s.stage == Stage::AnnasAdsBody {
                (
                    SessionView { stage: Stage::AnnasDetail, ..s },
                    ActionView::Get { url: "https://annas-archive.org/md5/"@ + s.book.download_id },
                )
            } else {
                (
                    SessionView { stage: Stage::Finished, ..s },
                    ActionView::Fail { message: "No download link found on LibGen ads page"@ },
                )
            }
        }),
{
    lemma_libgen_file_link_first(selected(body, "a"@));
}

/// An Anna's Archive download first fetches the book's LibGen download page;
/// once that page has answered, its text is read; and on that text the next
/// fetch is the page's first file link (a link whose `href` holds `get.php`
/// and `md5=`, made absolute on the LibGen site), or, only where there is
/// none, the book's page on Anna's Archive.
pub proof fn lemma_annas_download_run(
    book: BookView,
    response: OutcomeView,
    body: Seq<char>,
)
    requires
        response is Response,
    ensures
        ({
            let (s1, a1) = initial(ProviderKind::AnnasArchive, book);
            let (s2, a2) = transition(s1, response);
            let (s3, a3) = transition(s2, OutcomeView::Text { body });
            let links = selected(body, "a"@);
            &&& a1 == ActionView::Get { url: "https://libgen.li/ads.php?md5="@ + book.download_id }
            &&& a2 == ActionView::ReadText
            &&& forall|k: int|
                0 <= k < links.len() && is_file_link(#[trigger] links[k]) && (forall|j: int|
                    0 <= j < k ==> !is_file_link(links[j])) ==> s3.stage == Stage::File && a3
                    == ActionView::Get {
                    url: if starts_with(links[k].0->Some_0, "http"@) {
                        links[k].0->Some_0
                    } else {
                        "https://libgen.li/"@ + strip_leading(links[k].0->Some_0, '/')
                    },
                }
            &&& (forall|j: int| 0 <= j < links.len() ==> !is_file_link(#[trigger] links[j]))
                ==> s3.stage == Stage::AnnasDetail && a3 == ActionView::Get {
                url: "https://annas-archive.org/md5/"@ + book.download_id,
            }
        }),
{
    let (s1, a1) = initial(ProviderKind::AnnasArchive, book);
    let (s2, a2) = transition(s1, response);
    assert(s2.stage == Stage::AnnasAdsBody);
    lemma_ads_page_link(s2, body);
}

/// On the text of an Anna's Archive book page, a session fetches the `href`
/// of the page's first link that leads to a file (see [`leads_to_file`]) and
/// waits for the file; when no link does, it fails with `No download link
/// found for this book`.
pub proof fn lemma_book_page_link(s: SessionView, body: Seq<char>)
    requires
        s.stage == Stage::AnnasDetailBody,
    ensures
        ({
            let links = selected(body, "a"@);
            let next = transition(s, OutcomeView::Text { body });
            &&& forall|k: int|
                0 <= k < links.len() && leads_to_file(#[trigger] links[k]) && (forall|j: int|
                    0 <= j < k ==> !leads_to_file(links[j])) ==> next == (
                    SessionView { stage: Stage::File, ..s },
                    ActionView::Get { url: links[k].0->Some_0 },
                )
            &&& (forall|j: int| 0 <= j < links.len() ==> !leads_to_file(#[trigger] links[j]))
                ==> next == (
                SessionView { stage: Stage::Finished, ..s },
                ActionView::Fail { message: "No download link found for this book"@ },
            )
        }),
{
    lemma_annas_file_link_first(selected(body, "a"@));
}

/// A Gutenberg download first asks for the book's EPUB 3 file, saved under
/// the book's title made safe with `.epub` added. When that answers with
/// success, the file's details are handed on at once, in format `epub`;
/// otherwise the older EPUB file is asked for. When that one answers with
/// success its details are handed on; when it answers with a failure the
/// download fails naming the status and the book; when it cannot be reached
/// the download fails with the reason.
pub proof fn lemma_gutenberg_run(book: BookView, first: OutcomeView, second: OutcomeView)
    ensures
        ({
            let (s1, a1) = initial(ProviderKind::Gutenberg, book);
            let (s2, a2) = transition(s1, first);
            let (s3, a3) = transition(s2, second);
            &&& s1.filename == trim(sanitized(book.title)) + ".epub"@
            &&& a1 == ActionView::Get {
                url: "https://www.gutenberg.org/ebooks/"@ + book.download_id + ".epub3.images"@,
            }
            &&& (first matches OutcomeView::Response { success, content_length, .. } && success)
                ==> a2 == ActionView::Emit {
                event: EventView::Info {
                    title: book.title,
                    author: book.author,
                    format: "epub"@,
                    filename: s1.filename,
                    total: first->Response_content_length,
                },
            }
            &&& !(first matches OutcomeView::Response { success, .. } && success) ==> {
                &&& a2 == ActionView::Get {
                    url: "https://www.gutenberg.org/ebooks/"@ + book.download_id
                        + ".epub.images"@,
                }
                &&& (second matches OutcomeView::Response { success, .. } && success) ==> a3
                    == ActionView::Emit {
                    event: EventView::Info {
                        title: book.title,
                        author: book.author,
                        format: "epub"@,
                        filename: s1.filename,
                        total: second->Response_content_length,
                    },
                }
                &&& (second matches OutcomeView::Response { success, .. } && !success) ==> a3
                    == ActionView::Fail {
                    message: "Download failed with status "@ + second->Response_status
                        + " for book "@ + book.download_id,
                }
                &&& (second matches OutcomeView::Failed { message }) ==> a3 == ActionView::Fail {
                    message: second->Failed_message,
                }
            }
        }),
{
}

/// On an Archive item's file listing, a session fails with `No downloadable
/// PDF found for this item` when no file can be downloaded. Otherwise it
/// fetches, under the item's download address, one file that can be (the
/// first original upload where there is one, else the first such file), with
/// its name encoded for an address, and saves it under the book's title made
/// safe, with that file's extension.
pub proof fn lemma_archive_listing(s: SessionView, files: Seq<FileEntry>)
    requires
        s.stage == Stage::ArchiveListingBody,
    ensures
        ({
            let next = transition(s, OutcomeView::Listing { files });
            &&& (forall|j: int| 0 <= j < files.len() ==> !is_pdf_candidate(#[trigger] files[j]))
                ==> next == (
                SessionView { stage: Stage::Finished, ..s },
                ActionView::Fail { message: "No downloadable PDF found for this item"@ },
            )
            &&& (exists|j: int| 0 <= j < files.len() && is_pdf_candidate(#[trigger] files[j]))
                ==> exists|i: int|
                #![trigger files[i]]
                0 <= i < files.len() && is_pdf_candidate(files[i]) && files[i].name is Some && ((
                exists|j: int|
                    0 <= j < files.len() && is_pdf_candidate(#[trigger] files[j]) && is_original(
                        files[j],
                    )) ==> is_original(files[i])) && next == (
                    SessionView {
                        stage: Stage::CheckedFile,
                        filename: archive_output_name(s.book.title, files[i].name->Some_0@),
                        ..s
                    },
                    ActionView::Get {
                        url: "https://archive.org/download/"@ + s.book.download_id + "/"@
                            + url_encoded(files[i].name->Some_0@),
                    },
                )
        }),
{
    lemma_preferred_pdf(files);
    if let Some(i) = preferred_pdf(files) {
        assert(files[i].name is Some);
    }
}

/// A download starts with no events handed on and nothing counted, and
/// first asks: for a LibGen or an Anna's Archive book, the book's LibGen
/// download page; for an Archive book, the item's file listing; for a
/// Gutenberg book, its EPUB 3 file.
pub proof fn lemma_first_requests(provider: ProviderKind, book: BookView)
    ensures
        ({
            let (s, a) = initial(provider, book);
            &&& s.log.len() == 0 && s.downloaded == 0 && s.book == book && s.provider == provider
            &&& a == ActionView::Get {
                url: match provider {
                    ProviderKind::Libgen => "https://libgen.li/ads.php?md5="@ + book.download_id,
                    ProviderKind::AnnasArchive => "https://libgen.li/ads.php?md5="@
                        + book.download_id,
                    ProviderKind::Archive => "https://archive.org/metadata/"@ + book.download_id
                        + "/files"@,
                    ProviderKind::Gutenberg => "https://www.gutenberg.org/ebooks/"@
                        + book.download_id + ".epub3.images"@,
                },
            }
            &&& session_wf(s)
        }),
{
}

/// Once the file's details are handed on, the file is read piece by piece:
/// each piece read is handed on with the count of bytes handed on so far,
/// itself included; each piece, once taken, is followed by a read of the
/// next; the end of the file is handed on with the file name and the count
/// of all bytes; a failure while reading ends the download with its reason;
/// and when the receiver no longer takes events, the download stops.
pub proof fn lemma_stream_steps(s: SessionView, o: OutcomeView)
    requires
        session_wf(s),
        chunk_fits(s, o),
    ensures
        ({
            let (t, a) = transition(s, o);
            &&& (s.stage == Stage::SendingInfo || s.stage == Stage::SendingData) ==> (
            o matches OutcomeView::Sent { delivered } && delivered) ==> t.stage == Stage::Reading
                && a == ActionView::ReadChunk
            &&& (s.stage == Stage::SendingInfo || s.stage == Stage::SendingData || s.stage
                == Stage::SendingDone) ==> !(o matches OutcomeView::Sent { delivered }
                && delivered) ==> t.stage == Stage::Finished && a == ActionView::Stop
            &&& s.stage == Stage::Reading ==> (o matches OutcomeView::Chunk { bytes }) ==> (
            t.downloaded == s.downloaded + o->Chunk_bytes.len() && a == ActionView::Emit {
                event: EventView::Data {
                    bytes: o->Chunk_bytes,
                    downloaded: (s.downloaded + o->Chunk_bytes.len()) as u64,
                },
            })
            &&& s.stage == Stage::Reading ==> o is End ==> a == ActionView::Emit {
                event: EventView::Done { filename: s.filename, total: s.downloaded },
            }
            &&& s.stage == Stage::Reading ==> (o matches OutcomeView::Failed { message }) ==> a
                == ActionView::Fail { message: o->Failed_message }
            &&& session_wf(t)
        }),
{
    lemma_transition_wf(s, o);
}

/// When a LibGen or Anna's Archive file answers, its details are handed on:
/// the book's title, author and format, the file name (the server's, from
/// its `Content-Disposition` header, else one made from the title and
/// format) and the length the server announced. When an Archive file
/// answers with success, its details are handed on under the name chosen
/// from the listing; when it answers with a failure, the download fails
/// naming the status.
pub proof fn lemma_file_answer(s: SessionView, o: OutcomeView)
    requires
        o is Response,
    ensures
        ({
            let (t, a) = transition(s, o);
            &&& s.stage == Stage::File ==> {
                let name = download_filename(
                    s.book.title,
                    s.book.format,
                    o->Response_content_disposition,
                );
                &&& t.filename == name
                &&& t.stage == Stage::SendingInfo
                &&& a == ActionView::Emit {
                    event: EventView::Info {
                        title: s.book.title,
                        author: s.book.author,
                        format: s.book.format,
                        filename: name,
                        total: o->Response_content_length,
                    },
                }
            }
            &&& s.stage == Stage::CheckedFile ==> (o->Response_success ==> a == ActionView::Emit {
                event: EventView::Info {
                    title: s.book.title,
                    author: s.book.author,
                    format: s.book.format,
                    filename: s.filename,
                    total: o->Response_content_length,
                },
            }) && (!o->Response_success ==> a == ActionView::Fail {
                message: "Download failed with HTTP status "@ + o->Response_status,
            })
        }),
{
}

/// When a request fails with `message`, the download ends: failing with that
/// message where the failure is passed on as it is (a Gutenberg fallback, a
/// LibGen page or its text, an Archive listing's text, a LibGen or Anna's
/// Archive file, a read of the file), or with a fixed message that names
/// what failed (Anna's Archive pages and the Archive's requests). A failed
/// Gutenberg EPUB 3 request is the one exception: it moves on to the older
/// EPUB file. A failure while handing events on stops the download quietly.
pub proof fn lemma_failed_requests(s: SessionView, message: Seq<char>)
    ensures
        ({
            let (t, a) = transition(s, OutcomeView::Failed { message });
            &&& s.stage != Stage::GutenbergPrimary ==> t.stage == Stage::Finished
            &&& s.stage == Stage::GutenbergPrimary ==> t.stage == Stage::GutenbergFallback
            &&& (s.stage == Stage::GutenbergFallback || s.stage == Stage::LibgenAds || s.stage
                == Stage::LibgenAdsBody || s.stage == Stage::ArchiveListingBody || s.stage
                == Stage::File || s.stage == Stage::Reading) ==> a == ActionView::Fail { message }
            &&& s.stage == Stage::AnnasAds ==> a == ActionView::Fail {
                message: "Failed to fetch LibGen ads page for Anna's Archive MD5"@,
            }
            &&& s.stage == Stage::AnnasAdsBody ==> a == ActionView::Fail {
                message: "Failed to read ads page body"@,
            }
            &&& s.stage == Stage::AnnasDetail ==> a == ActionView::Fail {
                message: "Failed to fetch Anna's Archive MD5 detail page"@,
            }
            &&& s.stage == Stage::AnnasDetailBody ==> a == ActionView::Fail {
                message: "Failed to read Anna's Archive detail page"@,
            }
            &&& s.stage == Stage::ArchiveListing ==> a == ActionView::Fail {
                message: "Archive.org metadata request failed"@,
            }
            &&& s.stage == Stage::CheckedFile ==> a == ActionView::Fail {
                message: "Archive.org download request failed"@,
            }
            &&& (s.stage == Stage::SendingInfo || s.stage == Stage::SendingData || s.stage
                == Stage::SendingDone || s.stage == Stage::Finished) ==> a == ActionView::Stop
            &&& t.log == s.log && t.downloaded == s.downloaded
        }),
{
}

// ---------------------------------------------------------------------------
// The session
// ---------------------------------------------------------------------------

/// The message for an address that answered with a failure status.
fn status_failure(status: &str, id: &str) -> (r: String)
    ensures
        r@ == status_message(status@, id@),
{
    let mut out = chars_of("Download failed with status ");
    append_str(&mut out, status);
    append_str(&mut out, " for book ");
    append_str(&mut out, id);
    string_of(&out)
}

/// The message for an Archive file that answered with a failure status.
fn http_status_failure(status: &str) -> (r: String)
    ensures
        r@ == http_status_message(status@),
{
    let mut out = chars_of("Download failed with HTTP status ");
    append_str(&mut out, status);
    string_of(&out)
}

impl Session {
    /// Starts a download of `book` from `provider`: the session and the
    /// address to fetch first.
    pub fn start(provider: ProviderKind, book: BookResult) -> (r: (Session, Action))
        ensures
            (r.0@, r.1@) == initial(provider, book@),
            session_wf(r.0@),
    {
        let (stage, filename, url) = match provider {
            ProviderKind::Gutenberg => (
                Stage::GutenbergPrimary,
                gutenberg_filename(book.title.as_str()),
                gutenberg_epub3_url(book.download_id.as_str()),
            ),
            ProviderKind::Libgen => (
                Stage::LibgenAds,
                String::new(),
                libgen_ads_url(book.download_id.as_str()),
            ),
            ProviderKind::AnnasArchive => (
                Stage::AnnasAds,
                String::new(),
                libgen_ads_url(book.download_id.as_str()),
            ),
            ProviderKind::Archive => (
                Stage::ArchiveListing,
                String::new(),
                archive_metadata_url(book.download_id.as_str()),
            ),
        };
        let s = Session {
            provider: provider,
            book: book,
            stage: stage,
            filename: filename,
            downloaded: 0,
            log: Ghost(Seq::empty()),
        };
        (s, Action::Get { url })
    }

    /// Ends the session with the failure `message`.
    fn fail_with(&mut self, message: String) -> (r: Action)
        ensures
            (final(self)@, r@) == fail(old(self)@, message@),
    {
        self.stage = Stage::Finished;
        Action::Fail { message }
    }

    /// Ends the session quietly.
    fn stop_here(&mut self) -> (r: Action)
        ensures
            (final(self)@, r@) == stop(old(self)@),
    {
        self.stage = Stage::Finished;
        Action::Stop
    }

    /// Moves on to `stage` and fetches `url`.
    fn fetch_at(&mut self, stage: Stage, url: String) -> (r: Action)
        ensures
            (final(self)@, r@) == fetch(old(self)@, stage, url@),
    {
        self.stage = stage;
        Action::Get { url }
    }

    /// Hands on the file's details.
    fn announce_file(&mut self, filename: String, format: String, total: Option<u64>) -> (r: Action)
        ensures
            (final(self)@, r@) == announce(old(self)@, filename@, format@, total),
    {
        let event = DownloadEvent::FileInfo {
            title: self.book.title.clone(),
            author: self.book.author.clone(),
            format: format,
            filename: filename.clone(),
            total_bytes: total,
        };
        self.log = Ghost(self.log@.push(event@));
        self.filename = filename;
        self.stage = Stage::SendingInfo;
        Action::Emit { event }
    }

    /// The next action, given what came of the last one.
    pub fn step(&mut self, outcome: Outcome) -> (r: Action)
        requires
            session_wf(old(self)@),
            chunk_fits(old(self)@, outcome@),
        ensures
            (final(self)@, r@) == transition(old(self)@, outcome@),
            session_wf(final(self)@),
    {
        proof {
            lemma_transition_wf(self@, outcome@);
        }
        match self.stage {
            Stage::GutenbergPrimary => match outcome {
                Outcome::Response { success: true, content_length, .. } => {
                    let name = self.filename.clone();
                    self.announce_file(name, owned("epub"), content_length)
                },
                _ => {
                    let url = gutenberg_epub_url(self.book.download_id.as_str());
                    self.fetch_at(Stage::GutenbergFallback, url)
                },
            },
            Stage::GutenbergFallback => match outcome {
                Outcome::Response { success, status, content_length, .. } => if success {
                    let name = self.filename.clone();
                    self.announce_file(name, owned("epub"), content_length)
                } else {
                    let m = status_failure(status.as_str(), self.book.download_id.as_str());
                    self.fail_with(m)
                },
                Outcome::Failed { message } => self.fail_with(message),
                _ => self.stop_here(),
            },
            Stage::LibgenAds => match outcome {
                Outcome::Response { .. } => {
                    self.stage = Stage::LibgenAdsBody;
                    Action::ReadText
                },
                Outcome::Failed { message } => self.fail_with(message),
                _ => self.stop_here(),
            },
            Stage::LibgenAdsBody => match outcome {
                Outcome::Text { body } => {
                    let links = select_elements(body.as_str(), "a");
                    match file_link_in(&links) {
                        Some(u) => self.fetch_at(Stage::File, u),
                        None => self.fail_with(owned("No download link found on LibGen ads page")),
                    }
                },
                Outcome::Failed { message } => self.fail_with(message),
                _ => self.stop_here(),
            },
            Stage::AnnasAds => match outcome {
                Outcome::Response { .. } => {
                    self.stage = Stage::AnnasAdsBody;
                    Action::ReadText
                },
                Outcome::Failed { .. } => self.fail_with(
                    owned("Failed to fetch LibGen ads page for Anna's Archive MD5"),
                ),
                _ => self.stop_here(),
            },
            Stage::AnnasAdsBody => match outcome {
                Outcome::Text { body } => {
                    let links = select_elements(body.as_str(), "a");
                    match file_link_in(&links) {
                        Some(u) => self.fetch_at(Stage::File, u),
                        None => {
                            let u = annas_book_url(self.book.download_id.as_str());
                            self.fetch_at(Stage::AnnasDetail, u)
                        },
                    }
                },
                Outcome::Failed { .. } => self.fail_with(owned("Failed to read ads page body")),
                _ => self.stop_here(),
            },
            Stage::AnnasDetail => match outcome {
                Outcome::Response { .. } => {
                    self.stage = Stage::AnnasDetailBody;
                    Action::ReadText
                },
                Outcome::Failed { .. } => self.fail_with(
                    owned("Failed to fetch Anna's Archive MD5 detail page"),
                ),
                _ => self.stop_here(),
            },
            Stage::AnnasDetailBody => match outcome {
                Outcome::Text { body } => {
                    let links = select_elements(body.as_str(), "a");
                    match annas_file_link_in(&links) {
                        Some(u) => self.fetch_at(Stage::File, u),
                        None => self.fail_with(owned("No download link found for this book")),
                    }
                },
                Outcome::Failed { .. } => self.fail_with(
                    owned("Failed to read Anna's Archive detail page"),
                ),
                _ => self.stop_here(),
            },
            Stage::ArchiveListing => match outcome {
                Outcome::Response { .. } => {
                    self.stage = Stage::ArchiveListingBody;
                    Action::ReadListing
                },
                Outcome::Failed { .. } => self.fail_with(
                    owned("Archive.org metadata request failed"),
                ),
                _ => self.stop_here(),
            },
            Stage::ArchiveListingBody => match outcome {
                Outcome::Listing { files } => match archive_download_plan(&self.book, &files) {
                    Ok((url, name)) => {
                        self.filename = name;
                        self.stage = Stage::CheckedFile;
                        Action::Get { url }
                    },
                    Err(m) => self.fail_with(m),
                },
                Outcome::Failed { message } => self.fail_with(message),
                _ => self.stop_here(),
            },
            Stage::File => match outcome {
                Outcome::Response { content_length, content_disposition, .. } => {
                    let disposition = match &content_disposition {
                        Some(v) => Some(v.as_str()),
                        None => None,
                    };
                    let name = resolve_filename(&self.book, disposition);
                    let format = self.book.format.clone();
                    self.announce_file(name, format, content_length)
                },
                Outcome::Failed { message } => self.fail_with(message),
                _ => self.stop_here(),
            },
            Stage::CheckedFile => match outcome {
                Outcome::Response { success, status, content_length, .. } => if success {
                    let name = self.filename.clone();
                    let format = self.book.format.clone();
                    self.announce_file(name, format, content_length)
                } else {
                    let m = http_status_failure(status.as_str());
                    self.fail_with(m)
                },
                Outcome::Failed { .. } => self.fail_with(owned("Archive.org download request failed")),
                _ => self.stop_here(),
            },
            Stage::SendingInfo => match outcome {
                Outcome::Sent { delivered: true } => {
                    self.stage = Stage::Reading;
                    Action::ReadChunk
                },
                _ => self.stop_here(),
            },
            Stage::Reading => match outcome {
                Outcome::Chunk { bytes } => {
                    let n = bytes.len() as u64;
                    let d = self.downloaded + n;
                    let event = DownloadEvent::Data { bytes, downloaded: d };
                    self.log = Ghost(self.log@.push(event@));
                    self.downloaded = d;
                    self.stage = Stage::SendingData;
                    Action::Emit { event }
                },
                Outcome::End => {
                    let event = DownloadEvent::Done {
                        filename: self.filename.clone(),
                        total_bytes: self.downloaded,
                    };
                    self.log = Ghost(self.log@.push(event@));
                    self.stage = Stage::SendingDone;
                    Action::Emit { event }
                },
                Outcome::Failed { message } => self.fail_with(message),
                _ => self.stop_here(),
            },
            Stage::SendingData => match outcome {
                Outcome::Sent { delivered: true } => {
                    self.stage = Stage::Reading;
                    Action::ReadChunk
                },
                _ => self.stop_here(),
            },
            Stage::SendingDone => self.stop_here(),
            Stage::Finished => self.stop_here(),
        }
    }

    /// Whether the session is over.
    pub fn is_finished(&self) -> (r: bool)
        ensures
            r == (self.stage == Stage::Finished),
    {
        self.stage == Stage::Finished
    }
}

} // verus!
