use game_translator::book::{
    BookExportFormat, BookExportProfile, BookExportRecord, BookProject, SegmentStatus,
};
use game_translator::book_import::parse_book;
use game_translator::book_workflow::{
    append_export_history, apply_translations, book_translation_scope, export_label,
    export_record, projects_by_title, read_export_history, segments_for_translation,
    suggested_export_name,
    BookTranslation,
};

fn parse_text(name: &str, text: &str) -> BookProject {
    parse_book(name, &Ok(text.as_bytes().to_vec())).unwrap()
}

fn export_record_of(id: &str, project_id: &str, exported_at_unix_ms: u64) -> BookExportRecord {
    BookExportRecord {
        id: id.to_owned(),
        project_id: project_id.to_owned(),
        book_title: "书名".to_owned(),
        format: BookExportFormat::Docx,
        output_path: format!(r"C:\exports\{id}.docx"),
        target_language: "zh-CN".to_owned(),
        exported_at_unix_ms,
        profile: BookExportProfile::default(),
    }
}

#[test]
fn persists_export_history_newest_first_and_filters_by_project() {
    let first = export_record_of("first", "book-a", 10);
    let second = export_record_of("second", "book-a", 20);
    let unrelated = export_record_of("third", "book-b", 30);

    let mut stored = Vec::new();
    stored = append_export_history(&stored, first.clone());
    stored = append_export_history(&stored, second.clone());
    stored = append_export_history(&stored, unrelated);

    assert_eq!(read_export_history(&stored, Some("book-a")), vec![second, first]);
}

#[test]
fn export_history_keeps_the_newest_two_hundred() {
    let mut stored = Vec::new();
    for time in 0..205u64 {
        stored = append_export_history(&stored, export_record_of(&time.to_string(), "book", time));
    }
    assert_eq!(stored.len(), 200);
    assert_eq!(stored[0].exported_at_unix_ms, 204);
    assert_eq!(stored[199].exported_at_unix_ms, 5);
    let all = read_export_history(&stored, None);
    assert_eq!(all, stored);
}

#[test]
fn export_history_keeps_ties_in_order() {
    let a = export_record_of("a", "book", 7);
    let b = export_record_of("b", "book", 7);
    let c = export_record_of("c", "book", 9);
    let stored = vec![a.clone(), b.clone(), c.clone()];
    assert_eq!(read_export_history(&stored, None), vec![c, a, b]);
}

#[test]
fn full_book_translation_collects_all_chapters_but_skips_existing_translations() {
    let mut project = parse_text(
        "book.txt",
        "第一章 开始\n\nHello world.\n\n第二章 继续\n\nGoodbye world.",
    );
    project.chapters[0].segments[0].translation = "你好，世界。".to_owned();

    let segments = segments_for_translation(&project, None, true);

    assert_eq!(segments.len(), 1);
    assert_eq!(segments[0].source, "Goodbye world.");
}

#[test]
fn one_chapter_is_translated_in_full() {
    let mut project = parse_text(
        "book.txt",
        "第一章 开始\n\nHello world.\n\n第二章 继续\n\nGoodbye world.",
    );
    project.chapters[0].segments[0].translation = "你好，世界。".to_owned();
    let chapter = project.chapters[0].id.clone();

    let segments = book_translation_scope(&project, Some(&chapter)).unwrap();

    assert_eq!(segments.len(), 1);
    assert_eq!(segments[0].source, "Hello world.");
    assert_eq!(segments[0].context, "第一章 开始");
    assert_eq!(segments[0].id, project.chapters[0].segments[0].id);
}

#[test]
fn refuses_a_run_with_nothing_to_translate() {
    let mut project = parse_text("book.txt", "第一章 开始\n\nHello world.");
    project.chapters[0].segments[0].translation = "你好。".to_owned();
    assert_eq!(
        book_translation_scope(&project, None).unwrap_err(),
        "当前范围没有需要翻译的段落"
    );
    assert_eq!(
        book_translation_scope(&project, Some("no-such-chapter")).unwrap_err(),
        "当前范围没有需要翻译的段落"
    );
}

#[test]
fn applies_translations_as_drafts_or_issues() {
    let mut project = parse_text("book.txt", "第一章 开始\n\nOne.\n\nTwo.\n\nThree.");
    let ids: Vec<String> = project.chapters[0]
        .segments
        .iter()
        .map(|segment| segment.id.clone())
        .collect();
    let outcomes = vec![
        BookTranslation {
            segment_id: ids[0].clone(),
            translation: "一。".to_owned(),
            findings: Vec::new(),
        },
        BookTranslation {
            segment_id: ids[1].clone(),
            translation: "二".to_owned(),
            findings: vec!["MissingPunctuation".to_owned(), "LengthRatio".to_owned()],
        },
    ];

    let issues = apply_translations(&mut project, &outcomes, "en", "zh-CN");

    assert_eq!(issues, 1);
    let segments = &project.chapters[0].segments;
    assert_eq!(segments[0].translation, "一。");
    assert_eq!(segments[0].status, SegmentStatus::Draft);
    assert_eq!(segments[0].qa_note, None);
    assert_eq!(segments[1].status, SegmentStatus::Issue);
    assert_eq!(
        segments[1].qa_note.as_deref(),
        Some("MissingPunctuation、LengthRatio")
    );
    assert_eq!(segments[2].translation, "");
    assert_eq!(segments[2].status, SegmentStatus::Untranslated);
    assert_eq!(project.source_language, "en");
    assert_eq!(project.target_language, "zh-CN");
}

#[test]
fn names_exports_and_records_them() {
    let mut project = parse_text("book.txt", "第一章 开始\n\nHello world.");
    project.title = "书名：测试/终稿?".to_owned();

    assert_eq!(
        suggested_export_name(&project, BookExportFormat::Epub),
        "书名：测试_终稿_.zh-CN.epub"
    );
    assert_eq!(export_label(BookExportFormat::Pdf), "PDF 印刷稿");

    let record = export_record(
        &project,
        BookExportFormat::Pdf,
        "/tmp/out.pdf",
        1234,
        BookExportProfile::default(),
    );
    assert_eq!(record.id, format!("{}-1234", project.id));
    assert_eq!(record.project_id, project.id);
    assert_eq!(record.book_title, project.title);
    assert_eq!(record.output_path, "/tmp/out.pdf");
    assert!(record.profile.include_page_numbers);
}

#[test]
fn lists_projects_by_title() {
    let projects = vec![
        parse_text("星之旅.txt", "第一章 出发\n\n正文。"),
        parse_text("Beta.txt", "Body."),
        parse_text("Alpha.md", "# One\n\nText."),
    ];
    let titles: Vec<String> =
        projects_by_title(projects).into_iter().map(|project| project.title).collect();
    assert_eq!(titles, vec!["Alpha", "Beta", "星之旅"]);
}

#[test]
fn projects_with_the_same_title_keep_their_order() {
    let first = parse_text("Same.txt", "First body.");
    let second = parse_text("Same.md", "# One\n\nSecond body.");
    let ids = vec![first.id.clone(), second.id.clone()];
    let sorted: Vec<String> =
        projects_by_title(vec![first, second]).into_iter().map(|project| project.id).collect();
    assert_eq!(sorted, ids);
}
