use std::io::{Cursor, Read, Write};

use game_translator::book::{
    print_dimensions_mm, BookError, BookExportFormat, BookFormat, BookProject, PrintPreset,
    SegmentStatus,
};
use game_translator::book_export::{
    docx_document, docx_entries, epub_entries, export_markdown, manuscript_text, mm_to_twips,
    publication_lines, wrap_cjk, xml_escape, ArchiveEntry, DOCX_STYLES,
};
use game_translator::book_archive::package_archive;
use game_translator::book_import::parse_book;
use game_translator::book_text::{markdown_heading, split_blocks, txt_heading};
use zip::write::SimpleFileOptions;
use zip::{ZipArchive, ZipWriter};

fn parse_text(name: &str, text: &str) -> Result<BookProject, BookError> {
    parse_book(name, &Ok(text.as_bytes().to_vec()))
}

fn zip_bytes(entries: &[(&str, &str)]) -> Vec<u8> {
    let mut archive = ZipWriter::new(Cursor::new(Vec::new()));
    for (name, content) in entries {
        archive
            .start_file(*name, SimpleFileOptions::default())
            .unwrap();
        archive.write_all(content.as_bytes()).unwrap();
    }
    archive.finish().unwrap().into_inner()
}

fn entry_text(entries: &[ArchiveEntry], name: &str) -> String {
    entries
        .iter()
        .find(|entry| entry.name == name)
        .map(|entry| entry.content.clone())
        .unwrap()
}

fn translated_book() -> BookProject {
    let mut project = parse_text("novel.md", "# 第一章\n\nSource paragraph.").unwrap();
    "这是译文。".clone_into(&mut project.chapters[0].segments[0].translation);
    "原作者".clone_into(&mut project.publication.author);
    "译者".clone_into(&mut project.publication.translator);
    "示例出版社".clone_into(&mut project.publication.publisher);
    "978-7-0000-0000-1".clone_into(&mut project.publication.isbn);
    project
}

#[test]
fn parses_txt_chapter_titles_and_paragraphs() {
    let project = parse_text(
        "海边来信.txt",
        "第一章 雾港\n\nThe harbor was quiet.\n\nA bell rang.\n\n第二章 回信\n\nShe opened the letter.",
    )
    .unwrap();

    assert_eq!(project.title, "海边来信");
    assert_eq!(project.format, BookFormat::Txt);
    assert_eq!(project.chapters.len(), 2);
    assert_eq!(project.chapters[0].title, "第一章 雾港");
    assert_eq!(project.chapters[0].segments.len(), 2);
    assert_eq!(
        project.chapters[0].segments[0].source,
        "The harbor was quiet."
    );
    assert_eq!(
        project.chapters[0].segments[0].status,
        SegmentStatus::Untranslated
    );
}

#[test]
fn parses_markdown_headings_without_emitting_them_as_body_segments() {
    let project = parse_text(
        "notes.md",
        "# Part One\n\nFirst paragraph.\n\nSecond paragraph.\n\n## Part Two\n\nLast paragraph.",
    )
    .unwrap();

    assert_eq!(project.format, BookFormat::Markdown);
    assert_eq!(project.chapters.len(), 2);
    assert_eq!(project.chapters[0].title, "Part One");
    assert_eq!(project.chapters[1].segments[0].source, "Last paragraph.");
}

#[test]
fn rejects_an_empty_book() {
    let error = parse_text("empty.txt", "  \n\n").unwrap_err();

    assert!(error.message().contains("没有可导入的正文"));
}

#[test]
fn exports_translations_and_falls_back_to_source_text() {
    let mut project =
        parse_text("letters.md", "# Chapter One\n\nThe harbor was quiet.\n\nA bell rang.").unwrap();
    project.chapters[0].segments[0].translation = "港口很安静。".to_owned();
    project.chapters[0].segments[0].status = SegmentStatus::Reviewed;

    let markdown = export_markdown(&project);

    assert!(markdown.starts_with("# letters\n\n## Chapter One"));
    assert!(markdown.contains("港口很安静。"));
    assert!(markdown.contains("A bell rang."));
}

#[test]
fn parses_epub_spine_in_reading_order() {
    let bytes = zip_bytes(&[
        (
            "META-INF/container.xml",
            r#"<?xml version="1.0"?><container><rootfiles><rootfile full-path="OEBPS/content.opf"/></rootfiles></container>"#,
        ),
        (
            "OEBPS/content.opf",
            r#"<?xml version="1.0"?><package><manifest><item id="c1" href="ch1.xhtml" media-type="application/xhtml+xml"/><item id="c2" href="ch2.xhtml" media-type="application/xhtml+xml"/></manifest><spine><itemref idref="c1"/><itemref idref="c2"/></spine></package>"#,
        ),
        (
            "OEBPS/ch1.xhtml",
            r"<html><body><h1>Chapter One</h1><p>First paragraph.</p><p>Second paragraph.</p></body></html>",
        ),
        (
            "OEBPS/ch2.xhtml",
            r"<html><body><h1>Chapter Two</h1><p>Last paragraph.</p></body></html>",
        ),
    ]);

    let project = parse_book("sample.epub", &Ok(bytes)).unwrap();

    assert_eq!(project.format, BookFormat::Epub);
    assert_eq!(project.chapters.len(), 2);
    assert_eq!(project.chapters[0].title, "Chapter One");
    assert_eq!(project.chapters[0].segments[1].source, "Second paragraph.");
    assert_eq!(project.chapters[1].segments[0].source, "Last paragraph.");
}

#[test]
fn parses_docx_heading_styles_into_chapters() {
    let bytes = zip_bytes(&[(
        "word/document.xml",
        r#"<?xml version="1.0"?><w:document xmlns:w="urn:w"><w:body><w:p><w:pPr><w:pStyle w:val="Heading1"/></w:pPr><w:r><w:t>第一章</w:t></w:r></w:p><w:p><w:r><w:t>第一段正文。</w:t></w:r></w:p><w:p><w:r><w:t>第二段</w:t></w:r><w:r><w:t>正文。</w:t></w:r></w:p><w:p><w:pPr><w:pStyle w:val="Heading1"/></w:pPr><w:r><w:t>第二章</w:t></w:r></w:p><w:p><w:r><w:t>结尾。</w:t></w:r></w:p></w:body></w:document>"#,
    )]);

    let project = parse_book("sample.docx", &Ok(bytes)).unwrap();

    assert_eq!(project.format, BookFormat::Docx);
    assert_eq!(project.chapters.len(), 2);
    assert_eq!(project.chapters[0].title, "第一章");
    assert_eq!(project.chapters[0].segments[1].source, "第二段正文。");
    assert_eq!(project.chapters[1].segments[0].source, "结尾。");
}

#[test]
fn markdown_contains_publication_metadata_and_complete_manuscript() {
    let project = translated_book();

    let markdown = export_markdown(&project);

    assert!(markdown.contains("作者：原作者"));
    assert!(markdown.contains("译者：译者"));
    assert!(markdown.contains("ISBN：978-7-0000-0000-1"));
    assert!(markdown.contains("这是译文。"));
}

#[test]
fn docx_contains_word_styles_title_metadata_and_chapters() {
    let project = translated_book();

    let entries = docx_entries(&project);

    assert!(entries.iter().any(|entry| entry.name == "[Content_Types].xml"));
    let document = entry_text(&entries, "word/document.xml");
    let styles = entry_text(&entries, "word/styles.xml");
    assert!(document.contains("novel"));
    assert!(document.contains("原作者"));
    assert!(document.contains("第一章"));
    assert!(document.contains("这是译文。"));
    assert!(document.contains("w:pageBreakBefore"));
    assert!(styles.contains("w:styleId=\"BookBody\""));
    assert!(styles.contains("w:firstLineChars=\"200\""));
}

#[test]
fn epub3_contains_metadata_navigation_spine_and_chapter_xhtml() {
    let project = translated_book();

    let entries = epub_entries(&project);

    assert_eq!(entry_text(&entries, "mimetype"), "application/epub+zip");
    let package = entry_text(&entries, "OEBPS/content.opf");
    let navigation = entry_text(&entries, "OEBPS/nav.xhtml");
    let chapter = entry_text(&entries, "OEBPS/chapter-1.xhtml");
    assert!(package.contains("version=\"3.0\""));
    assert!(package.contains("原作者"));
    assert!(package.contains("译者"));
    assert!(package.contains("978-7-0000-0000-1"));
    assert!(navigation.contains("第一章"));
    assert!(chapter.contains("这是译文。"));
}

#[test]
fn print_presets_use_publication_page_dimensions() {
    let mm = |preset| {
        let (width, height) = print_dimensions_mm(preset);
        (f64::from(width), f64::from(height))
    };
    assert_eq!(mm(PrintPreset::Large32), (140.0, 203.0));
    assert_eq!(mm(PrintPreset::A5), (148.0, 210.0));
    assert_eq!(mm(PrintPreset::Sixteen), (185.0, 260.0));
}

#[test]
fn page_sizes_in_twips_round_to_the_nearest() {
    assert_eq!(mm_to_twips(140), 7937);
    assert_eq!(mm_to_twips(203), 11509);
    assert_eq!(mm_to_twips(210), 11906);
    let document = docx_document(&translated_book());
    assert!(document.contains("<w:pgSz w:w=\"7937\" w:h=\"11509\"/>"));
}

#[test]
fn export_extensions_match_formats() {
    assert_eq!(BookExportFormat::Markdown.extension(), "md");
    assert_eq!(BookExportFormat::Docx.extension(), "docx");
    assert_eq!(BookExportFormat::Epub.extension(), "epub");
    assert_eq!(BookExportFormat::Pdf.extension(), "pdf");
}

#[test]
fn epub_packages_store_the_mimetype_and_number_chapters() {
    let mut project = translated_book();
    project.chapters.push(project.chapters[0].clone());
    let entries = epub_entries(&project);
    assert_eq!(entries.len(), 7);
    assert_eq!(entries[0].name, "mimetype");
    assert!(!entries[0].compressed);
    assert!(entries[1..].iter().all(|entry| entry.compressed));
    assert_eq!(entries[6].name, "OEBPS/chapter-2.xhtml");
    let package = entry_text(&entries, "OEBPS/content.opf");
    assert!(package.contains("<itemref idref=\"chapter-1\"/><itemref idref=\"chapter-2\"/>"));
    assert!(package.contains("<dc:identifier id=\"book-id\">978-7-0000-0000-1</dc:identifier>"));
    assert!(DOCX_STYLES.contains("BookTitle"));
}

#[test]
fn rejects_unknown_book_formats_before_reading() {
    let error = parse_book("notes.PDF", &Err("missing".to_owned())).unwrap_err();
    assert_eq!(error.message(), "不支持的书籍格式：pdf");
    let error = parse_book("README", &Ok(Vec::new())).unwrap_err();
    assert!(matches!(error, BookError::UnsupportedFormat(ref e) if e.is_empty()));
}

#[test]
fn reports_read_failures_per_format() {
    let error = parse_book("a.txt", &Err("denied".to_owned())).unwrap_err();
    assert!(matches!(error, BookError::Io(ref m) if m == "读取书籍失败：denied"));
    let error = parse_book("a.epub", &Err("denied".to_owned())).unwrap_err();
    assert!(matches!(error, BookError::Io(ref m) if m == "读取 EPUB 失败：denied"));
    let error = parse_book("a.docx", &Err("denied".to_owned())).unwrap_err();
    assert!(matches!(error, BookError::Io(ref m) if m == "读取 DOCX 失败：denied"));
}

#[test]
fn refuses_broken_containers() {
    let error = parse_book("a.docx", &Ok(b"not a zip".to_vec())).unwrap_err();
    assert!(matches!(error, BookError::InvalidData(ref m) if m.starts_with("DOCX 容器无效：")));
    let bytes = zip_bytes(&[("other.xml", "<a/>")]);
    let error = parse_book("a.docx", &Ok(bytes)).unwrap_err();
    assert!(
        matches!(error, BookError::InvalidData(ref m) if m.starts_with("书籍容器缺少 word/document.xml："))
    );
    let bytes = zip_bytes(&[("META-INF/container.xml", "<container/>")]);
    let error = parse_book("a.epub", &Ok(bytes)).unwrap_err();
    assert!(matches!(error, BookError::InvalidData(ref m) if m == "EPUB 缺少 OPF 根文件"));
}

#[test]
fn decodes_byte_order_marks_and_gbk() {
    let mut utf8 = vec![0xEF, 0xBB, 0xBF];
    utf8.extend_from_slice("第一章 开始\n\n你好。".as_bytes());
    let project = parse_book("a.txt", &Ok(utf8)).unwrap();
    assert_eq!(project.chapters[0].segments[0].source, "你好。");

    let mut utf16 = vec![0xFF, 0xFE];
    for unit in "Chapter 1\n\nHello.".encode_utf16() {
        utf16.extend_from_slice(&unit.to_le_bytes());
    }
    let project = parse_book("a.txt", &Ok(utf16)).unwrap();
    assert_eq!(project.chapters[0].title, "Chapter 1");
    assert_eq!(project.chapters[0].segments[0].source, "Hello.");

    // "中文" in GBK.
    let gbk = vec![0xD6, 0xD0, 0xCE, 0xC4];
    let project = parse_book("a.txt", &Ok(gbk)).unwrap();
    assert_eq!(project.chapters[0].title, "正文");
    assert_eq!(project.chapters[0].segments[0].source, "中文");
}

#[test]
fn splits_blocks_at_blank_lines_and_trims_lines() {
    assert_eq!(
        split_blocks("  a  \r\n b\r\n\r\n\r\nc\rd\n\n  \n\n"),
        vec!["a\nb".to_owned(), "\nc\nd".to_owned()]
    );
}

#[test]
fn recognises_chapter_headings() {
    assert_eq!(markdown_heading("## Part Two ##"), Some("Part Two".to_owned()));
    assert_eq!(markdown_heading("####### seven"), None);
    assert_eq!(markdown_heading("#"), None);
    assert_eq!(txt_heading("CHAPTER 3 The Bell"), Some("CHAPTER 3 The Bell".to_owned()));
    assert_eq!(txt_heading("第十卷 终章"), Some("第十卷 终章".to_owned()));
    assert_eq!(txt_heading("第一次见面"), None);
    assert_eq!(txt_heading("Chapter one\nbody"), None);
}

#[test]
fn segment_ids_are_stable_and_distinct() {
    let first = parse_text("book.txt", "第一章 开始\n\nA.\n\nB.").unwrap();
    let second = parse_text("book.txt", "第一章 开始\n\nA.\n\nB.").unwrap();
    assert_eq!(first, second);
    assert_eq!(first.id.len(), 24);
    assert_ne!(first.chapters[0].segments[0].id, first.chapters[0].segments[1].id);
    assert_eq!(first.source_language, "auto");
    assert_eq!(first.target_language, "zh-CN");
}

#[test]
fn escapes_all_xml_special_characters() {
    assert_eq!(xml_escape("<a href=\"x\">'&'</a>"), "&lt;a href=&quot;x&quot;&gt;&apos;&amp;&apos;&lt;/a&gt;");
}

#[test]
fn manuscript_prefers_a_translation() {
    let mut project = translated_book();
    assert_eq!(manuscript_text(&project.chapters[0].segments[0]), "这是译文。");
    project.chapters[0].segments[0].translation = "   ".to_owned();
    assert_eq!(manuscript_text(&project.chapters[0].segments[0]), "Source paragraph.");
}

#[test]
fn title_pages_list_filled_front_matter() {
    let mut project = translated_book();
    project.publication.copyright = "  ".to_owned();
    assert_eq!(
        publication_lines(&project),
        vec![
            "作者：原作者".to_owned(),
            "译者：译者".to_owned(),
            "出版社：示例出版社".to_owned(),
            "ISBN：978-7-0000-0000-1".to_owned(),
        ]
    );
}

#[test]
fn wraps_cjk_lines_without_losing_text_or_opening_with_punctuation() {
    let lines = wrap_cjk("一二三四五六七八九十，甲乙丙丁戊己。\n\n  短句。  ", 8);
    let joined: String = lines.concat();
    assert_eq!(
        joined,
        "　　一二三四五六七八九十，甲乙丙丁戊己。　　短句。"
    );
    assert!(lines.iter().skip(1).all(|line| !line.starts_with('，') && !line.starts_with('。')));
    assert_eq!(lines[0], "　　一二三四五六七八");
}

#[test]
fn zip_reading_of_exported_docx_round_trips() {
    let project = translated_book();
    let bytes = package_archive(&docx_entries(&project), "DOCX").unwrap();
    let mut archive = ZipArchive::new(Cursor::new(bytes.clone())).unwrap();
    let mut text = String::new();
    archive
        .by_name("word/document.xml")
        .unwrap()
        .read_to_string(&mut text)
        .unwrap();
    assert!(text.contains("这是译文。"));
    // The exported paragraph styles are not Word heading styles, so the whole
    // manuscript reads back as one body chapter.
    let reparsed = parse_book("novel.docx", &Ok(bytes)).unwrap();
    assert_eq!(reparsed.chapters.len(), 1);
    assert_eq!(reparsed.chapters[0].title, "正文");
    assert_eq!(reparsed.chapters[0].segments[0].source, "novel");
    assert_eq!(reparsed.chapters[0].segments[6].source, "这是译文。");
}

#[test]
fn packaged_epub_stores_the_mimetype_first_and_reads_back_in_spine_order() {
    let project = translated_book();
    let bytes = package_archive(&epub_entries(&project), "EPUB").unwrap();
    let mut archive = ZipArchive::new(Cursor::new(bytes.clone())).unwrap();
    let first = archive.by_index(0).unwrap();
    assert_eq!(first.name_raw(), b"mimetype");
    assert_eq!(first.compression(), zip::CompressionMethod::Stored);
    drop(first);
    let reparsed = parse_book("novel.epub", &Ok(bytes)).unwrap();
    assert_eq!(reparsed.chapters.len(), 1);
    assert_eq!(reparsed.chapters[0].title, "第一章");
    assert!(reparsed.chapters[0].segments.iter().any(|s| s.source == "这是译文。"));
}

#[test]
fn packaging_refuses_a_name_twice() {
    let entry = ArchiveEntry { name: "a.txt".to_owned(), content: "x".to_owned(), compressed: true };
    let error = package_archive(&vec![entry.clone(), entry], "DOCX").unwrap_err();
    match error {
        BookError::Io(message) => assert!(message.starts_with("写入 a.txt 失败：")),
        other => panic!("unexpected error {other:?}"),
    }
}

#[test]
fn a_book_of_twelve_chapters_packs_every_chapter_under_its_own_name() {
    let mut text = String::new();
    for n in 1..=12 {
        text.push_str(&format!("# 第{n}章\n\n段落 {n}。\n\n"));
    }
    let project = parse_text("long.md", &text).unwrap();
    assert_eq!(project.chapters.len(), 12);
    let entries = epub_entries(&project);
    let mut names: Vec<&str> = entries.iter().map(|entry| entry.name.as_str()).collect();
    assert!(names.contains(&"OEBPS/chapter-1.xhtml"));
    assert!(names.contains(&"OEBPS/chapter-12.xhtml"));
    names.sort_unstable();
    names.dedup();
    assert_eq!(names.len(), entries.len());
    let bytes = package_archive(&entries, "EPUB").unwrap();
    let archive = ZipArchive::new(Cursor::new(bytes)).unwrap();
    assert_eq!(archive.len(), 5 + 12);
}

#[test]
fn imported_paragraphs_always_hold_text() {
    let project = parse_text("gaps.txt", "\n\n   \n\nFirst.\n\n\n\n  \t \n\nSecond.\n\n").unwrap();
    let sources: Vec<&str> = project.chapters[0].segments.iter().map(|s| s.source.as_str()).collect();
    assert_eq!(sources, vec!["First.", "Second."]);
    assert!(project.chapters.iter().all(|c| c.segments.iter().all(|s| !s.source.is_empty())));
}
