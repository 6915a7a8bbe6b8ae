use bookfinder::download::{Action, Outcome, Session};
use bookfinder::filenames::{resolve_filename, sanitize_filename};
use bookfinder::html::HtmlElement;
use bookfinder::list_provider_names;
use bookfinder::providers::annas_archive::{annas_results, annas_search_url, extract_annas_detail_download_url};
use bookfinder::providers::archive::{
    archive_download_plan, archive_output_filename, archive_results, detect_format, parse_u64,
    select_pdf_file, CreatorField, FileEntry, FormatField, SearchDoc,
};
use bookfinder::providers::gutenberg::{gutenberg_filename, gutenberg_results, gutenberg_search_url};
use bookfinder::providers::libgen::{extract_download_url, libgen_results, libgen_search_url};
use bookfinder::providers::{provider_for_cli, provider_named, providers_for, ProviderChoice, ProviderKind};
use bookfinder::search::add_limited;
use bookfinder::{BookResult, DownloadEvent};

fn el(href: Option<&str>, texts: &[&str]) -> HtmlElement {
    HtmlElement {
        href: href.map(|h| h.to_string()),
        texts: texts.iter().map(|t| t.to_string()).collect(),
    }
}

fn book(title: &str, format: &str, id: &str) -> BookResult {
    BookResult {
        id: id.to_string(),
        title: title.to_string(),
        author: "Someone".to_string(),
        format: format.to_string(),
        size: String::new(),
        provider: "test".to_string(),
        download_id: id.to_string(),
    }
}

#[test]
fn gutenberg_entry_without_subtitle_is_by_unknown() {
    let titles = vec![vec![el(None, &["  Dracula ", ""])]];
    let subtitles = vec![vec![]];
    let links = vec![vec![el(Some("/about"), &[]), el(None, &[]), el(Some("/ebooks/345.epub"), &[])]];
    let r = gutenberg_results(&titles, &subtitles, &links);
    assert_eq!(r.len(), 1);
    assert_eq!(r[0].title, "Dracula");
    assert_eq!(r[0].author, "Unknown");
    assert_eq!(r[0].id, "345");
    assert_eq!(r[0].download_id, "345");
    assert_eq!(r[0].size, "~1 MB");
}

#[test]
fn gutenberg_first_numbered_link_wins() {
    let titles = vec![vec![el(None, &["A"])], vec![el(None, &["B"])]];
    let subtitles = vec![vec![el(None, &[" X "])], vec![]];
    let links = vec![
        vec![el(Some("/ebooks/1"), &[]), el(Some("/ebooks/2"), &[])],
        vec![el(Some("/nothing"), &[])],
    ];
    let r = gutenberg_results(&titles, &subtitles, &links);
    assert_eq!(r.len(), 1);
    assert_eq!(r[0].id, "1");
    assert_eq!(r[0].author, "X");
}

#[test]
fn gutenberg_addresses_and_file_name() {
    assert_eq!(
        gutenberg_search_url("art of war"),
        "https://www.gutenberg.org/ebooks/search/?query=art%20of%20war&submit_search=Go%21"
    );
    assert_eq!(gutenberg_filename(" Moby Dick; or, The Whale "), "Moby Dick_ or_ The Whale.epub");
}

#[test]
fn libgen_row_fields() {
    let links = vec![vec![
        el(Some("/ads.php?md5=first"), &["x"]),
        el(Some("https://x/ads.php?md5=second"), &["y"]),
    ]];
    let tds = vec![vec![
        el(None, &["A Long Enough Title For Testing", " 1234567890; more"]),
        el(None, &["x"]),
        el(None, &["  Jane   Doe "]),
        el(None, &["EPUB file"]),
        el(None, &["450 kB"]),
        el(None, &["DJVU"]),
    ]];
    let r = libgen_results(&links, &tds);
    assert_eq!(r.len(), 1);
    assert_eq!(r[0].id, "second");
    assert_eq!(r[0].title, "A Long Enough Title For Testing");
    assert_eq!(r[0].author, "Jane Doe");
    assert_eq!(r[0].format, "djvu");
    assert_eq!(r[0].size, "450 kB");
    assert_eq!(r[0].provider, "libgen");
}

#[test]
fn libgen_short_cells_give_first_cell_as_title() {
    let links = vec![vec![el(Some("ads.php?md5=m1"), &[])]];
    let tds = vec![vec![el(None, &["Short"]), el(None, &["Short"]), el(None, &["Ann"])]];
    let r = libgen_results(&links, &tds);
    assert_eq!(r.len(), 1);
    assert_eq!(r[0].title, "Short");
    assert_eq!(r[0].author, "Ann");
    assert_eq!(r[0].format, "");
    assert_eq!(r[0].size, "");
}

#[test]
fn libgen_rows_without_cells_or_md5_are_skipped() {
    let links = vec![vec![el(Some("/ads.php?md5="), &[])], vec![el(Some("/ads.php?md5=abc"), &[])]];
    let tds = vec![vec![el(None, &["cell"])], vec![]];
    assert_eq!(libgen_results(&links, &tds).len(), 0);
}

#[test]
fn libgen_download_page_links() {
    let page = r#"<html><body><a href="/other">x</a><a href="/get.php?md5=abc&key=1">GET</a></body></html>"#;
    assert_eq!(extract_download_url(page), Some("https://libgen.li/get.php?md5=abc&key=1".to_string()));
    let page = r#"<a href="https://cdn.example/get.php?md5=abc">GET</a>"#;
    assert_eq!(extract_download_url(page), Some("https://cdn.example/get.php?md5=abc".to_string()));
    assert_eq!(extract_download_url("<a href='get.php'>no md5</a>"), None);
}

#[test]
fn libgen_search_address() {
    assert!(libgen_search_url("clean code").starts_with("https://libgen.li/index.php?req=clean%20code&columns"));
}

#[test]
fn annas_details_and_language() {
    let anchors = vec![
        el(Some("/about"), &["About this site"]),
        el(
            Some("/md5/0123456789abcdef0123456789abcdef"),
            &["\n  Programming Rust\n", "Jim Blandy\n", "O'Reilly\n", "2021 | English | PDF | 12.5 MB | extra-info\n"],
        ),
    ];
    let r = annas_results(&anchors);
    assert_eq!(r.len(), 1);
    assert_eq!(r[0].title, "Programming Rust");
    assert_eq!(r[0].author, "O'Reilly");
    assert_eq!(r[0].format, "pdf");
    assert_eq!(r[0].size, "12.5 MB");
    assert_eq!(r[0].provider, "annas-archive (English)");
}

#[test]
fn annas_short_text_uses_md5_as_title() {
    let anchors = vec![el(Some("/md5/ffffffffffffffffffffffffffffffff"), &["abc", "de"])];
    let r = annas_results(&anchors);
    assert_eq!(r.len(), 1);
    assert_eq!(r[0].title, "ffffffffffffffffffffffffffffffff");
    assert_eq!(r[0].author, "de");
    assert_eq!(r[0].provider, "annas-archive");
}

#[test]
fn annas_detail_page_and_search_address() {
    let page = r#"<a href="/local">Fast download</a><a href="https://mirror/x">Slow</a><a href="https://ipfs.io/ipfs/Q">Mirror</a>"#;
    assert_eq!(extract_annas_detail_download_url(page), Some("https://ipfs.io/ipfs/Q".to_string()));
    let page = r#"<a href="https://a.b/c">FAST Download</a>"#;
    assert_eq!(extract_annas_detail_download_url(page), Some("https://a.b/c".to_string()));
    assert_eq!(annas_search_url("三体", "zh"), "https://annas-archive.org/search?q=%E4%B8%89%E4%BD%93&lang=zh&ext=");
}

#[test]
fn archive_formats() {
    assert_eq!(detect_format(&None), "pdf");
    assert_eq!(detect_format(&Some(FormatField::Single("EPUB".to_string()))), "epub");
    assert_eq!(
        detect_format(&Some(FormatField::Multiple(vec!["Text PDF".to_string(), "EPUB".to_string()]))),
        "pdf"
    );
    assert_eq!(detect_format(&Some(FormatField::Multiple(vec!["DjVu".to_string()]))), "pdf");
}

#[test]
fn archive_hits_become_books() {
    let docs = vec![
        SearchDoc {
            identifier: "id1".to_string(),
            title: None,
            creator: Some(CreatorField::Multiple(vec!["A".to_string(), "B".to_string()])),
            format: None,
        },
        SearchDoc {
            identifier: "id2".to_string(),
            title: Some("T".to_string()),
            creator: None,
            format: Some(FormatField::Single("epub".to_string())),
        },
    ];
    let r = archive_results(&docs);
    assert_eq!(r.len(), 2);
    assert_eq!(r[0].title, "id1");
    assert_eq!(r[0].author, "A, B");
    assert_eq!(r[0].format, "pdf");
    assert_eq!(r[0].size, "unknown");
    assert_eq!(r[1].author, "Unknown");
    assert_eq!(r[1].format, "epub");
    assert_eq!(r[1].provider, "archive");
}

#[test]
fn archive_numbers() {
    assert_eq!(parse_u64("123"), Some(123));
    assert_eq!(parse_u64("+7"), Some(7));
    assert_eq!(parse_u64(""), None);
    assert_eq!(parse_u64("+"), None);
    assert_eq!(parse_u64("-1"), None);
    assert_eq!(parse_u64("12a"), None);
    assert_eq!(parse_u64("18446744073709551615"), Some(u64::MAX));
    assert_eq!(parse_u64("18446744073709551616"), None);
}

fn file(name: &str, source: &str, size: Option<&str>) -> FileEntry {
    FileEntry {
        name: Some(name.to_string()),
        source: Some(source.to_string()),
        size: size.map(|s| s.to_string()),
    }
}

#[test]
fn archive_prefers_original_pdfs() {
    let files = vec![
        file("a.txt", "original", None),
        file("b.PDF", "derivative", Some("100")),
        file("c.pdf", "original", Some("999999999")),
        file("d.pdf", "original", Some("n/a")),
    ];
    assert_eq!(select_pdf_file(&files), Some(3));
    let files = vec![file("b.pdf", "derivative", None), file("c.pdf", "derivative", None)];
    assert_eq!(select_pdf_file(&files), Some(0));
    assert_eq!(select_pdf_file(&vec![file("a.epub", "original", None)]), None);
}

#[test]
fn archive_download_plans() {
    let b = book("My Book!", "pdf", "item1");
    let files = vec![file("dir/My File.pdf", "original", None)];
    let (url, name) = archive_download_plan(&b, &files).unwrap();
    assert_eq!(url, "https://archive.org/download/item1/dir%2FMy%20File.pdf");
    assert_eq!(name, "My Book_.pdf");
    assert_eq!(
        archive_download_plan(&b, &vec![]).unwrap_err(),
        "No downloadable PDF found for this item"
    );
    assert_eq!(archive_output_filename("x", "noext"), "x.pdf");
}

#[test]
fn file_names() {
    assert_eq!(sanitize_filename("  a/b: c  "), "a_b_ c");
    assert_eq!(sanitize_filename(&sanitize_filename(" q?r ")), sanitize_filename(" q?r "));
    let b = book("Title: Part 1", "", "x");
    assert_eq!(resolve_filename(&b, None), "Title_ Part 1.bin");
    assert_eq!(resolve_filename(&b, Some("attachment; filename=\"real name.epub\"")), "real name.epub");
    assert_eq!(resolve_filename(&b, Some("inline")), "Title_ Part 1.bin");
    let long = "x".repeat(150);
    let b = book(&long, "pdf", "x");
    assert_eq!(resolve_filename(&b, None), format!("{}.pdf", "x".repeat(100)));
}

#[test]
fn provider_names_and_choices() {
    assert_eq!(list_provider_names(), vec!["libgen", "gutenberg", "archive", "annas-archive"]);
    for n in list_provider_names() {
        assert_eq!(provider_named(n).unwrap().name(), n);
    }
    assert_eq!(provider_named("annas"), None);
    assert_eq!(provider_for_cli("annas"), Ok(ProviderKind::AnnasArchive));
    assert_eq!(provider_for_cli("libgen"), Ok(ProviderKind::Libgen));
    assert_eq!(
        provider_for_cli("zlib"),
        Err("Unknown provider: zlib. Use libgen, gutenberg, archive, or annas.".to_string())
    );
    assert_eq!(providers_for(ProviderChoice::All).len(), 4);
    assert_eq!(providers_for(ProviderChoice::Annas), vec![ProviderKind::AnnasArchive]);
}

#[test]
fn limited_results_are_appended_in_order() {
    let mut all = vec![book("a", "", "1")];
    add_limited(&mut all, vec![book("b", "", "2"), book("c", "", "3"), book("d", "", "4")], 2);
    let ids: Vec<&str> = all.iter().map(|b| b.id.as_str()).collect();
    assert_eq!(ids, vec!["1", "2", "3"]);
    add_limited(&mut all, vec![book("e", "", "5")], 10);
    assert_eq!(all.len(), 4);
}

fn expect_get(a: Action) -> String {
    match a {
        Action::Get { url } => url,
        _ => panic!("expected a fetch"),
    }
}

fn response(success: bool, len: Option<u64>, disposition: Option<&str>) -> Outcome {
    Outcome::Response {
        success,
        status: if success { "200 OK".to_string() } else { "404 Not Found".to_string() },
        content_length: len,
        content_disposition: disposition.map(|d| d.to_string()),
    }
}

#[test]
fn gutenberg_download_counts_bytes() {
    let b = book("Moby Dick", "", "2701");
    let (mut s, a) = Session::start(ProviderKind::Gutenberg, b);
    assert_eq!(expect_get(a), "https://www.gutenberg.org/ebooks/2701.epub3.images");
    let a = s.step(response(false, None, None));
    assert_eq!(expect_get(a), "https://www.gutenberg.org/ebooks/2701.epub.images");
    match s.step(response(true, Some(5), None)) {
        Action::Emit { event: DownloadEvent::FileInfo { filename, format, total_bytes, title, .. } } => {
            assert_eq!(filename, "Moby Dick.epub");
            assert_eq!(format, "epub");
            assert_eq!(title, "Moby Dick");
            assert_eq!(total_bytes, Some(5));
        }
        _ => panic!("expected the file's details"),
    }
    assert!(matches!(s.step(Outcome::Sent { delivered: true }), Action::ReadChunk));
    match s.step(Outcome::Chunk { bytes: vec![1, 2, 3] }) {
        Action::Emit { event: DownloadEvent::Data { bytes, downloaded } } => {
            assert_eq!(bytes, vec![1, 2, 3]);
            assert_eq!(downloaded, 3);
        }
        _ => panic!("expected data"),
    }
    assert!(matches!(s.step(Outcome::Sent { delivered: true }), Action::ReadChunk));
    match s.step(Outcome::Chunk { bytes: vec![4, 5] }) {
        Action::Emit { event: DownloadEvent::Data { downloaded, .. } } => assert_eq!(downloaded, 5),
        _ => panic!("expected data"),
    }
    assert!(matches!(s.step(Outcome::Sent { delivered: true }), Action::ReadChunk));
    match s.step(Outcome::End) {
        Action::Emit { event: DownloadEvent::Done { filename, total_bytes } } => {
            assert_eq!(filename, "Moby Dick.epub");
            assert_eq!(total_bytes, 5);
        }
        _ => panic!("expected the end"),
    }
    assert!(matches!(s.step(Outcome::Sent { delivered: true }), Action::Stop));
    assert!(s.is_finished());
    assert!(matches!(s.step(Outcome::End), Action::Stop));
}

#[test]
fn gutenberg_download_fails_on_both_addresses() {
    let (mut s, _) = Session::start(ProviderKind::Gutenberg, book("T", "", "9"));
    s.step(Outcome::Failed { message: "timeout".to_string() });
    match s.step(response(false, None, None)) {
        Action::Fail { message } => assert_eq!(message, "Download failed with status 404 Not Found for book 9"),
        _ => panic!("expected a failure"),
    }
    assert!(s.is_finished());
}

#[test]
fn libgen_download_follows_the_page() {
    let (mut s, a) = Session::start(ProviderKind::Libgen, book("Some Title", "pdf", "abc"));
    assert_eq!(expect_get(a), "https://libgen.li/ads.php?md5=abc");
    assert!(matches!(s.step(response(false, None, None)), Action::ReadText));
    let a = s.step(Outcome::Text { body: "<a href=\"get.php?md5=abc&key=K\">GET</a>".to_string() });
    assert_eq!(expect_get(a), "https://libgen.li/get.php?md5=abc&key=K");
    match s.step(response(true, None, Some("attachment; filename=\"file.pdf\""))) {
        Action::Emit { event: DownloadEvent::FileInfo { filename, format, total_bytes, .. } } => {
            assert_eq!(filename, "file.pdf");
            assert_eq!(format, "pdf");
            assert_eq!(total_bytes, None);
        }
        _ => panic!("expected the file's details"),
    }
    assert!(matches!(s.step(Outcome::Sent { delivered: false }), Action::Stop));
}

#[test]
fn libgen_download_without_link_fails() {
    let (mut s, _) = Session::start(ProviderKind::Libgen, book("T", "pdf", "abc"));
    s.step(response(true, None, None));
    match s.step(Outcome::Text { body: "<p>nothing</p>".to_string() }) {
        Action::Fail { message } => assert_eq!(message, "No download link found on LibGen ads page"),
        _ => panic!("expected a failure"),
    }
}

#[test]
fn annas_download_falls_back_to_its_own_page() {
    let (mut s, a) = Session::start(ProviderKind::AnnasArchive, book("T", "epub", "m5"));
    assert_eq!(expect_get(a), "https://libgen.li/ads.php?md5=m5");
    s.step(response(true, None, None));
    let a = s.step(Outcome::Text { body: String::new() });
    assert_eq!(expect_get(a), "https://annas-archive.org/md5/m5");
    assert!(matches!(s.step(response(true, None, None)), Action::ReadText));
    let a = s.step(Outcome::Text { body: "<a href=\"https://x.org/b.epub\">mirror</a>".to_string() });
    assert_eq!(expect_get(a), "https://x.org/b.epub");
    match s.step(Outcome::Failed { message: "reset".to_string() }) {
        Action::Fail { message } => assert_eq!(message, "reset"),
        _ => panic!("expected a failure"),
    }
}

#[test]
fn annas_download_failures_carry_context() {
    let (mut s, _) = Session::start(ProviderKind::AnnasArchive, book("T", "epub", "m5"));
    match s.step(Outcome::Failed { message: "dns".to_string() }) {
        Action::Fail { message } => assert_eq!(message, "Failed to fetch LibGen ads page for Anna's Archive MD5"),
        _ => panic!("expected a failure"),
    }
}

#[test]
fn archive_download_checks_status() {
    let (mut s, a) = Session::start(ProviderKind::Archive, book("A Title", "pdf", "it"));
    assert_eq!(expect_get(a), "https://archive.org/metadata/it/files");
    assert!(matches!(s.step(response(true, None, None)), Action::ReadListing));
    let a = s.step(Outcome::Listing { files: vec![file("x.pdf", "original", Some("10"))] });
    assert_eq!(expect_get(a), "https://archive.org/download/it/x.pdf");
    match s.step(response(false, None, None)) {
        Action::Fail { message } => assert_eq!(message, "Download failed with HTTP status 404 Not Found"),
        _ => panic!("expected a failure"),
    }
}

#[test]
fn archive_download_names_the_file_after_the_title() {
    let (mut s, _) = Session::start(ProviderKind::Archive, book("A Title", "pdf", "it"));
    s.step(response(true, None, None));
    s.step(Outcome::Listing { files: vec![file("x.pdf", "original", None)] });
    match s.step(response(true, Some(1), None)) {
        Action::Emit { event: DownloadEvent::FileInfo { filename, .. } } => assert_eq!(filename, "A Title.pdf"),
        _ => panic!("expected the file's details"),
    }
}

#[test]
fn book_placeholder_from_id() {
    let b = BookResult::from_id("libgen", "abc");
    assert_eq!(b.title, "abc");
    assert_eq!(b.download_id, "abc");
    assert_eq!(b.provider, "libgen");
    assert_eq!(b.author, "");
    assert_eq!(b.to_display_string(), "[libgen] [] abc -  (, abc)");
}
