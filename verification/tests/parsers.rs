use bookfinder::providers::annas_archive::parse_annas_html;
use bookfinder::providers::gutenberg::parse_gutenberg_html;
use bookfinder::providers::libgen::parse_libgen_html;
use bookfinder::BookResult;

#[test]
fn test_book_result_display() {
    let book = BookResult {
        id: "abc123".to_string(),
        title: "Rust Programming".to_string(),
        author: "Steve Klabnik".to_string(),
        format: "pdf".to_string(),
        size: "2.5 MB".to_string(),
        provider: "libgen".to_string(),
        download_id: "abc123".to_string(),
    };
    let s = book.to_display_string();
    assert!(s.contains("libgen"), "missing provider");
    assert!(s.contains("pdf"), "missing format");
    assert!(s.contains("Rust Programming"), "missing title");
    assert!(s.contains("Steve Klabnik"), "missing author");
    assert!(s.contains("2.5 MB"), "missing size");
    assert!(s.contains("abc123"), "missing id");
}

#[test]
fn test_book_result_display_empty_fields() {
    let book = BookResult {
        id: "xyz".to_string(),
        title: String::new(),
        author: String::new(),
        format: String::new(),
        size: String::new(),
        provider: "gutenberg".to_string(),
        download_id: "xyz".to_string(),
    };
    let s = book.to_display_string();
    assert!(s.contains("gutenberg"));
    assert!(s.contains("xyz"));
}

#[test]
fn test_parse_gutenberg_html_typical() {
    let html = r#"<ul class="results">
  <li class="booklink">
    <a href="/ebooks/2701">
      <span class="title">Moby Dick</span>
      <span class="subtitle">Melville, Herman</span>
    </a>
  </li>
</ul>"#;
    let results = parse_gutenberg_html(html);
    assert_eq!(results.len(), 1);
    let book = &results[0];
    assert_eq!(book.id, "2701");
    assert_eq!(book.title, "Moby Dick");
    assert_eq!(book.author, "Melville, Herman");
    assert_eq!(book.format, "epub");
    assert_eq!(book.provider, "gutenberg");
}

#[test]
fn test_parse_gutenberg_html_no_id_skipped() {
    let html = r#"<ul class="results">
  <li class="booklink">
    <a href="/no-ebook-id">
      <span class="title">Some Book Without ID</span>
    </a>
  </li>
</ul>"#;
    let results = parse_gutenberg_html(html);
    assert_eq!(results.len(), 0, "entries without ebook id should be skipped");
}

#[test]
fn test_parse_gutenberg_html_empty_title_skipped() {
    let html = r#"<ul class="results">
  <li class="booklink">
    <a href="/ebooks/123"><span class="title"></span></a>
  </li>
</ul>"#;
    let results = parse_gutenberg_html(html);
    assert_eq!(results.len(), 0, "entries with empty title should be skipped");
}

#[test]
fn test_parse_gutenberg_html_empty() {
    let results = parse_gutenberg_html("");
    assert_eq!(results.len(), 0);
}

#[test]
fn test_parse_libgen_html_typical_row() {
    let html = r#"<table>
  <tr>
    <td><a href="/ads.php?md5=abc123def456abc123def456abc123de">Book Title Here That Is Long Enough</a></td>
    <td>Author Name</td>
    <td>Publisher</td>
    <td>2023</td>
    <td>English</td>
    <td>pdf</td>
    <td>2.5 MB</td>
  </tr>
</table>"#;
    let results = parse_libgen_html(html);
    assert_eq!(results.len(), 1);
    let book = &results[0];
    assert_eq!(book.id, "abc123def456abc123def456abc123de");
    assert_eq!(book.title, "Book Title Here That Is Long Enough");
    assert_eq!(book.author, "Author Name");
    assert_eq!(book.format, "pdf");
    assert_eq!(book.size, "2.5 MB");
    assert_eq!(book.provider, "libgen");
}

#[test]
fn test_parse_libgen_html_missing_md5_skipped() {
    let html = r#"<table>
  <tr>
    <td><a href="/some/other/link">Book Title That Is Long Enough Here</a></td>
    <td>Author Name</td>
    <td>pdf</td>
    <td>1 MB</td>
  </tr>
</table>"#;
    let results = parse_libgen_html(html);
    assert_eq!(results.len(), 0, "rows without md5 should be skipped");
}

#[test]
fn test_parse_libgen_html_empty() {
    let results = parse_libgen_html("");
    assert_eq!(results.len(), 0);
}

#[test]
fn test_parse_annas_html_chinese_title() {
    let html = r#"<html><body>
  <a href="/md5/aabbccddeeff00112233445566778899">
    三体
    刘慈欣
    2008 | Chinese | epub | 1.2 MB
  </a>
</body></html>"#;
    let results = parse_annas_html(html, "zh");
    assert_eq!(results.len(), 1);
    let book = &results[0];
    assert_eq!(book.id, "aabbccddeeff00112233445566778899");
    assert!(book.title.contains("三体"), "title should contain 三体, got: {}", book.title);
    assert_eq!(book.format, "epub");
    assert!(book.provider.contains("annas-archive"));
}

#[test]
fn test_parse_annas_html_deduplication() {
    let html = r#"<html><body>
  <a href="/md5/aabbccddeeff00112233445566778899">First Title Long Enough Here</a>
  <a href="/md5/aabbccddeeff00112233445566778899">Duplicate Link</a>
</body></html>"#;
    let results = parse_annas_html(html, "en");
    assert_eq!(results.len(), 1, "duplicate md5 links should be deduplicated");
}

#[test]
fn test_parse_annas_html_valid_entry() {
    let html = r#"<html><body>
  <a href="/md5/00112233445566778899aabbccddeeff">
    The Great Rust Book
    John Doe
    2022 | English | pdf | 3.4 MB
  </a>
</body></html>"#;
    let results = parse_annas_html(html, "en");
    assert_eq!(results.len(), 1);
    let book = &results[0];
    assert_eq!(book.id, "00112233445566778899aabbccddeeff");
    assert!(book.title.contains("Rust Book"), "got: {}", book.title);
    assert_eq!(book.format, "pdf");
    assert_eq!(book.size, "3.4 MB");
}

#[test]
fn test_parse_annas_html_empty() {
    let results = parse_annas_html("", "en");
    assert_eq!(results.len(), 0);
}
