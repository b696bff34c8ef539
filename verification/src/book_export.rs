use crate::book::{
    page_size_mm, print_dimensions_mm, BookChapter, BookChapterModel, BookProject,
    BookProjectModel, BookSegment, BookSegmentModel, PublicationModel,
};
use crate::book_archive::{name_limit, names_distinct, names_short};
use crate::text::{
    all_space, chars_of, slice_chars, decimal, is_blank, lemma_decimal_injective, lemma_decimal_len, ten_pow, owned, push_char, push_decimal, push_str, string_from,
    trim, trimmed,
};
use vstd::prelude::*;

verus! {

// ---------------------------------------------------------------------------
// Shared pieces
// ---------------------------------------------------------------------------
/// What XML escaping writes for one character of a publication file.
pub open spec fn escape_publication_char(c: char) -> Seq<char> {
    if c == '&' {
        "&amp;"@
    } else if c == '<' {
        "&lt;"@
    } else if c == '>' {
        "&gt;"@
    } else if c == '"' {
        "&quot;"@
    } else if c == '\'' {
        "&apos;"@
    } else {
        seq![c]
    }
}

/// `s` with `&`, `<`, `>`, `"` and `'` written as entities.
pub open spec fn escaped(s: Seq<char>) -> Seq<char>
    decreases s.len(),
{
    if s.len() == 0 {
        Seq::empty()
    } else {
        escaped(s.drop_last()) + escape_publication_char(s.last())
    }
}

/// Appends `value` with the five XML special characters escaped.
pub fn push_escaped(out: &mut String, value: &str)
    ensures
        final(out)@ == old(out)@ + escaped(value@),
{
    let v = chars_of(value);
    let ghost start = out@;
    let mut i: usize = 0;
    proof {
        reveal_strlit("&amp;");
        reveal_strlit("&lt;");
        reveal_strlit("&gt;");
        reveal_strlit("&quot;");
        reveal_strlit("&apos;");
    }
    assert(v@.take(0) =~= Seq::<char>::empty());
    assert(start + escaped(v@.take(0)) =~= start);
    while i < v.len()
        invariant
            i <= v.len(),
            v@ == value@,
            out@ == start + escaped(v@.take(i as int)),
        decreases v.len() - i,
    {
        let c = v[i];
        if c == '&' {
            push_str(out, "&amp;");
        } else if c == '<' {
            push_str(out, "&lt;");
        } else if c == '>' {
            push_str(out, "&gt;");
        } else if c == '"' {
            push_str(out, "&quot;");
        } else if c == '\'' {
            push_str(out, "&apos;");
        } else {
            push_char(out, c);
        }
        assert(v@.take(i + 1).drop_last() =~= v@.take(i as int));
        i = i + 1;
        assert(out@ =~= start + escaped(v@.take(i as int)));
    }
    assert(v@.take(v.len() as int) =~= v@);
}

/// A string with the five XML special characters escaped.
pub fn xml_escape(value: &str) -> (r: String)
    ensures
        r@ == escaped(value@),
{
    let mut out = String::new();
    push_escaped(&mut out, value);
    out
}

/// The text a segment contributes to a manuscript: its translation, or the
/// source text while it is untranslated, trimmed.
pub open spec fn manuscript(segment: BookSegmentModel) -> Seq<char> {
    if all_space(segment.translation) {
        trim(segment.source)
    } else {
        trim(segment.translation)
    }
}

/// The text a segment contributes to a manuscript.
pub fn manuscript_text(segment: &BookSegment) -> (r: String)
    ensures
        r@ == manuscript(segment@),
{
    if is_blank(segment.translation.as_str()) {
        trimmed(segment.source.as_str())
    } else {
        trimmed(segment.translation.as_str())
    }
}

// ---------------------------------------------------------------------------
// Markdown
// ---------------------------------------------------------------------------
/// One `label：value` metadata line, or nothing for a blank value.
pub open spec fn meta_line(label: Seq<char>, value: Seq<char>) -> Seq<char> {
    if all_space(value) {
        Seq::empty()
    } else {
        label + "："@ + trim(value) + "  \n"@
    }
}

/// Whether any front-matter field that Markdown shows is filled in.
pub open spec fn has_front_matter(p: PublicationModel) -> bool {
    !all_space(p.author) || !all_space(p.translator) || !all_space(p.publisher) || !all_space(
        p.isbn,
    ) || !all_space(p.copyright)
}

/// The paragraphs of a chapter in Markdown.
pub open spec fn markdown_paragraphs(segments: Seq<BookSegmentModel>) -> Seq<char>
    decreases segments.len(),
{
    if segments.len() == 0 {
        Seq::empty()
    } else {
        let t = manuscript(segments.last());
        markdown_paragraphs(segments.drop_last()) + if t.len() > 0 {
            t + "\n\n"@
        } else {
            Seq::empty()
        }
    }
}

/// The chapters of a book in Markdown.
pub open spec fn markdown_chapters(chapters: Seq<BookChapterModel>) -> Seq<char>
    decreases chapters.len(),
{
    if chapters.len() == 0 {
        Seq::empty()
    } else {
        markdown_chapters(chapters.drop_last()) + "## "@ + trim(chapters.last().title) + "\n\n"@
            + markdown_paragraphs(chapters.last().segments)
    }
}

/// A book as a Markdown manuscript.
pub open spec fn markdown_manuscript(p: BookProjectModel) -> Seq<char> {
    let m = p.publication;
    "# "@ + trim(p.title) + "\n\n"@ + meta_line("作者"@, m.author) + meta_line("译者"@, m.translator)
        + meta_line("出版社"@, m.publisher) + meta_line("ISBN"@, m.isbn) + meta_line("版权"@, m.copyright)
        + if has_front_matter(m) {
        "\n"@
    } else {
        Seq::empty()
    } + markdown_chapters(p.chapters)
}

fn push_meta_line(out: &mut String, label: &str, value: &str)
    ensures
        final(out)@ == old(out)@ + meta_line(label@, value@),
{
    if !is_blank(value) {
        push_str(out, label);
        push_str(out, "：");
        let t = trimmed(value);
        push_str(out, t.as_str());
        push_str(out, "  \n");
    } else {
        assert(old(out)@ + Seq::<char>::empty() =~= old(out)@);
    }
}

fn push_markdown_paragraphs(out: &mut String, segments: &Vec<BookSegment>)
    ensures
        final(out)@ == old(out)@ + markdown_paragraphs(crate::book::book_segment_models(segments@)),
{
    let ghost models = crate::book::book_segment_models(segments@);
    let ghost start = out@;
    let mut i: usize = 0;
    assert(models.take(0) =~= Seq::<BookSegmentModel>::empty());
    assert(start + markdown_paragraphs(models.take(0)) =~= start);
    while i < segments.len()
        invariant
            i <= segments.len(),
            models == crate::book::book_segment_models(segments@),
            out@ == start + markdown_paragraphs(models.take(i as int)),
        decreases segments.len() - i,
    {
        assert(models.take(i + 1).drop_last() =~= models.take(i as int));
        assert(models.take(i + 1).last() == segments@[i as int]@);
        let t = manuscript_text(&segments[i]);
        if !t.as_str().is_empty() {
            push_str(out, t.as_str());
            push_str(out, "\n\n");
        }
        i = i + 1;
        assert(out@ =~= start + markdown_paragraphs(models.take(i as int)));
    }
    assert(models.take(segments.len() as int) =~= models);
}

/// The book as a UTF-8 Markdown manuscript: title, front matter, then every
/// chapter with its translated paragraphs (source text where untranslated).
pub fn export_markdown(project: &BookProject) -> (r: String)
    ensures
        r@ == markdown_manuscript(project@),
{
    let mut out = owned("# ");
    let title = trimmed(project.title.as_str());
    push_str(&mut out, title.as_str());
    push_str(&mut out, "\n\n");
    let m = &project.publication;
    push_meta_line(&mut out, "作者", m.author.as_str());
    push_meta_line(&mut out, "译者", m.translator.as_str());
    push_meta_line(&mut out, "出版社", m.publisher.as_str());
    push_meta_line(&mut out, "ISBN", m.isbn.as_str());
    push_meta_line(&mut out, "版权", m.copyright.as_str());
    if !is_blank(m.author.as_str()) || !is_blank(m.translator.as_str()) || !is_blank(
        m.publisher.as_str(),
    ) || !is_blank(m.isbn.as_str()) || !is_blank(m.copyright.as_str()) {
        push_str(&mut out, "\n");
    }
    let ghost head = out@;
    let ghost models = crate::book::chapter_models(project.chapters@);
    let mut i: usize = 0;
    assert(models.take(0) =~= Seq::<BookChapterModel>::empty());
    assert(head + markdown_chapters(models.take(0)) =~= head);
    while i < project.chapters.len()
        invariant
            i <= project.chapters.len(),
            models == crate::book::chapter_models(project.chapters@),
            out@ == head + markdown_chapters(models.take(i as int)),
        decreases project.chapters.len() - i,
    {
        assert(models.take(i + 1).drop_last() =~= models.take(i as int));
        assert(models.take(i + 1).last() == project.chapters@[i as int]@);
        let chapter = &project.chapters[i];
        push_str(&mut out, "## ");
        let t = trimmed(chapter.title.as_str());
        push_str(&mut out, t.as_str());
        push_str(&mut out, "\n\n");
        push_markdown_paragraphs(&mut out, &chapter.segments);
        i = i + 1;
        assert(out@ =~= head + markdown_chapters(models.take(i as int)));
    }
    assert(models.take(project.chapters.len() as int) =~= models);
    out
}


// ---------------------------------------------------------------------------
// DOCX
// ---------------------------------------------------------------------------
/// `[Content_Types].xml` of a DOCX package.
pub const DOCX_CONTENT_TYPES: &'static str = "<?xml version=\"1.0\" encoding=\"UTF-8\"?><Types xmlns=\"http://schemas.openxmlformats.org/package/2006/content-types\"><Default Extension=\"rels\" ContentType=\"application/vnd.openxmlformats-package.relationships+xml\"/><Default Extension=\"xml\" ContentType=\"application/xml\"/><Override PartName=\"/word/document.xml\" ContentType=\"application/vnd.openxmlformats-officedocument.wordprocessingml.document.main+xml\"/><Override PartName=\"/word/styles.xml\" ContentType=\"application/vnd.openxmlformats-officedocument.wordprocessingml.styles+xml\"/></Types>";

/// `_rels/.rels` of a DOCX package.
pub const DOCX_ROOT_RELS: &'static str = "<?xml version=\"1.0\" encoding=\"UTF-8\"?><Relationships xmlns=\"http://schemas.openxmlformats.org/package/2006/relationships\"><Relationship Id=\"rId1\" Type=\"http://schemas.openxmlformats.org/officeDocument/2006/relationships/officeDocument\" Target=\"word/document.xml\"/></Relationships>";

/// `word/_rels/document.xml.rels` of a DOCX package.
pub const DOCX_DOCUMENT_RELS: &'static str = "<?xml version=\"1.0\" encoding=\"UTF-8\"?><Relationships xmlns=\"http://schemas.openxmlformats.org/package/2006/relationships\"><Relationship Id=\"rId1\" Type=\"http://schemas.openxmlformats.org/officeDocument/2006/relationships/styles\" Target=\"styles.xml\"/></Relationships>";

/// `word/styles.xml`: the publication styles of a DOCX manuscript.
pub const DOCX_STYLES: &'static str = "<?xml version=\"1.0\" encoding=\"UTF-8\" standalone=\"yes\"?><w:styles xmlns:w=\"http://schemas.openxmlformats.org/wordprocessingml/2006/main\"><w:docDefaults><w:rPrDefault><w:rPr><w:rFonts w:ascii=\"Noto Serif SC\" w:eastAsia=\"Noto Serif SC\"/><w:sz w:val=\"21\"/></w:rPr></w:rPrDefault></w:docDefaults><w:style w:type=\"paragraph\" w:styleId=\"BookTitle\"><w:name w:val=\"书名\"/><w:pPr><w:jc w:val=\"center\"/><w:spacing w:before=\"2400\" w:after=\"720\"/></w:pPr><w:rPr><w:b/><w:sz w:val=\"36\"/></w:rPr></w:style><w:style w:type=\"paragraph\" w:styleId=\"BookMeta\"><w:name w:val=\"出版信息\"/><w:pPr><w:jc w:val=\"center\"/><w:spacing w:after=\"180\"/></w:pPr></w:style><w:style w:type=\"paragraph\" w:styleId=\"ChapterTitle\"><w:name w:val=\"章节标题\"/><w:pPr><w:jc w:val=\"center\"/><w:spacing w:before=\"720\" w:after=\"720\"/></w:pPr><w:rPr><w:b/><w:sz w:val=\"30\"/></w:rPr></w:style><w:style w:type=\"paragraph\" w:styleId=\"BookBody\"><w:name w:val=\"正文\"/><w:pPr><w:ind w:firstLineChars=\"200\"/><w:spacing w:line=\"360\" w:lineRule=\"auto\" w:after=\"0\"/></w:pPr><w:rPr><w:sz w:val=\"21\"/></w:rPr></w:style></w:styles>";

/// Millimetres in twentieths of a point, rounded to the nearest (mm × 1440 / 25.4).
pub open spec fn twips(mm: nat) -> nat {
    (mm * 28800 + 254) / 508
}

/// Millimetres in twentieths of a point.
pub fn mm_to_twips(mm: u32) -> (r: u64)
    ensures
        r == twips(mm as nat),
{
    let m = mm as u64;
    (m * 28800 + 254) / 508
}

/// One styled DOCX paragraph.
pub open spec fn docx_paragraph(text: Seq<char>, style: Seq<char>, page_break: bool) -> Seq<char> {
    "<w:p><w:pPr><w:pStyle w:val=\""@ + style + "\"/>"@ + if page_break {
        "<w:pageBreakBefore/>"@
    } else {
        Seq::empty()
    } + "</w:pPr><w:r><w:t xml:space=\"preserve\">"@ + escaped(text) + "</w:t></w:r></w:p>"@
}

/// A front-matter paragraph for a filled-in field.
pub open spec fn docx_meta(label: Seq<char>, value: Seq<char>) -> Seq<char> {
    if value.len() > 0 {
        docx_paragraph(label + value, "BookMeta"@, false)
    } else {
        Seq::empty()
    }
}

/// The front-matter paragraphs of a DOCX manuscript.
pub open spec fn docx_front(m: PublicationModel) -> Seq<char> {
    docx_meta("作者："@, m.author) + docx_meta("译者："@, m.translator) + docx_meta(
        "出版社："@,
        m.publisher,
    ) + docx_meta("ISBN："@, m.isbn) + docx_meta(Seq::empty(), m.copyright)
}

/// The body paragraphs of a chapter.
pub open spec fn docx_segments(segments: Seq<BookSegmentModel>) -> Seq<char>
    decreases segments.len(),
{
    if segments.len() == 0 {
        Seq::empty()
    } else {
        let t = manuscript(segments.last());
        docx_segments(segments.drop_last()) + if t.len() > 0 {
            docx_paragraph(t, "BookBody"@, false)
        } else {
            Seq::empty()
        }
    }
}

/// The chapters of a DOCX manuscript, each opening a page.
pub open spec fn docx_chapters(chapters: Seq<BookChapterModel>) -> Seq<char>
    decreases chapters.len(),
{
    if chapters.len() == 0 {
        Seq::empty()
    } else {
        docx_chapters(chapters.drop_last()) + docx_paragraph(
            chapters.last().title,
            "ChapterTitle"@,
            true,
        ) + docx_segments(chapters.last().segments)
    }
}

/// `word/document.xml` of a book: title, front matter, chapters, and the page
/// size of its print preset.
pub open spec fn docx_document_xml(p: BookProjectModel) -> Seq<char> {
    let (w, h) = page_size_mm(p.publication.print_preset);
    "<?xml version=\"1.0\" encoding=\"UTF-8\" standalone=\"yes\"?><w:document xmlns:w=\"http://schemas.openxmlformats.org/wordprocessingml/2006/main\"><w:body>"@
        + docx_paragraph(p.title, "BookTitle"@, false) + docx_front(p.publication) + docx_chapters(
        p.chapters,
    ) + "<w:sectPr><w:pgSz w:w=\""@ + decimal(twips(w as nat)) + "\" w:h=\""@ + decimal(
        twips(h as nat),
    )
        + "\"/><w:pgMar w:top=\"1134\" w:right=\"1021\" w:bottom=\"1134\" w:left=\"1134\" w:gutter=\"227\"/></w:sectPr></w:body></w:document>"@
}

fn push_docx_paragraph(out: &mut String, text: &str, style: &str, page_break: bool)
    ensures
        final(out)@ == old(out)@ + docx_paragraph(text@, style@, page_break),
{
    let ghost start = out@;
    push_str(out, "<w:p><w:pPr><w:pStyle w:val=\"");
    push_str(out, style);
    push_str(out, "\"/>");
    if page_break {
        push_str(out, "<w:pageBreakBefore/>");
    }
    push_str(out, "</w:pPr><w:r><w:t xml:space=\"preserve\">");
    push_escaped(out, text);
    push_str(out, "</w:t></w:r></w:p>");
    assert(out@ =~= start + docx_paragraph(text@, style@, page_break));
}

fn push_docx_meta(out: &mut String, label: &str, value: &str)
    ensures
        final(out)@ == old(out)@ + docx_meta(label@, value@),
{
    if !value.is_empty() {
        let mut text = owned(label);
        push_str(&mut text, value);
        push_docx_paragraph(out, text.as_str(), "BookMeta", false);
    } else {
        assert(old(out)@ + Seq::<char>::empty() =~= old(out)@);
    }
}

fn push_docx_chapter(out: &mut String, chapter: &BookChapter)
    ensures
        final(out)@ == old(out)@ + docx_paragraph(chapter.title@, "ChapterTitle"@, true)
            + docx_segments(crate::book::book_segment_models(chapter.segments@)),
{
    push_docx_paragraph(out, chapter.title.as_str(), "ChapterTitle", true);
    let ghost head = out@;
    let ghost models = crate::book::book_segment_models(chapter.segments@);
    let mut i: usize = 0;
    assert(models.take(0) =~= Seq::<BookSegmentModel>::empty());
    assert(head + docx_segments(models.take(0)) =~= head);
    while i < chapter.segments.len()
        invariant
            i <= chapter.segments.len(),
            models == crate::book::book_segment_models(chapter.segments@),
            out@ == head + docx_segments(models.take(i as int)),
        decreases chapter.segments.len() - i,
    {
        assert(models.take(i + 1).drop_last() =~= models.take(i as int));
        assert(models.take(i + 1).last() == chapter.segments@[i as int]@);
        let t = manuscript_text(&chapter.segments[i]);
        if !t.as_str().is_empty() {
            push_docx_paragraph(out, t.as_str(), "BookBody", false);
        }
        i = i + 1;
        assert(out@ =~= head + docx_segments(models.take(i as int)));
    }
    assert(models.take(chapter.segments.len() as int) =~= models);
}

/// `word/document.xml` of a book.
pub fn docx_document(project: &BookProject) -> (r: String)
    ensures
        r@ == docx_document_xml(project@),
{
    let mut out = owned(
        "<?xml version=\"1.0\" encoding=\"UTF-8\" standalone=\"yes\"?><w:document xmlns:w=\"http://schemas.openxmlformats.org/wordprocessingml/2006/main\"><w:body>",
    );
    push_docx_paragraph(&mut out, project.title.as_str(), "BookTitle", false);
    let m = &project.publication;
    push_docx_meta(&mut out, "作者：", m.author.as_str());
    push_docx_meta(&mut out, "译者：", m.translator.as_str());
    push_docx_meta(&mut out, "出版社：", m.publisher.as_str());
    push_docx_meta(&mut out, "ISBN：", m.isbn.as_str());
    push_docx_meta(&mut out, "", m.copyright.as_str());
    let ghost head = out@;
    let ghost models = crate::book::chapter_models(project.chapters@);
    let mut i: usize = 0;
    assert(models.take(0) =~= Seq::<BookChapterModel>::empty());
    assert(head + docx_chapters(models.take(0)) =~= head);
    while i < project.chapters.len()
        invariant
            i <= project.chapters.len(),
            models == crate::book::chapter_models(project.chapters@),
            out@ == head + docx_chapters(models.take(i as int)),
        decreases project.chapters.len() - i,
    {
        assert(models.take(i + 1).drop_last() =~= models.take(i as int));
        assert(models.take(i + 1).last() == project.chapters@[i as int]@);
        push_docx_chapter(&mut out, &project.chapters[i]);
        i = i + 1;
        assert(out@ =~= head + docx_chapters(models.take(i as int)));
    }
    assert(models.take(project.chapters.len() as int) =~= models);
    let (w, h) = print_dimensions_mm(project.publication.print_preset);
    push_str(&mut out, "<w:sectPr><w:pgSz w:w=\"");
    push_decimal(&mut out, mm_to_twips(w));
    push_str(&mut out, "\" w:h=\"");
    push_decimal(&mut out, mm_to_twips(h));
    push_str(
        &mut out,
        "\"/><w:pgMar w:top=\"1134\" w:right=\"1021\" w:bottom=\"1134\" w:left=\"1134\" w:gutter=\"227\"/></w:sectPr></w:body></w:document>",
    );
    proof {
        reveal_strlit("");
        assert(""@ =~= Seq::<char>::empty());
    }
    assert(out@ =~= docx_document_xml(project@));
    out
}


// ---------------------------------------------------------------------------
// EPUB
// ---------------------------------------------------------------------------
/// `META-INF/container.xml` of an EPUB package.
pub const EPUB_CONTAINER: &'static str = "<?xml version=\"1.0\" encoding=\"UTF-8\"?><container version=\"1.0\" xmlns=\"urn:oasis:names:tc:opendocument:xmlns:container\"><rootfiles><rootfile full-path=\"OEBPS/content.opf\" media-type=\"application/oebps-package+xml\"/></rootfiles></container>";

/// `OEBPS/styles.css` of an EPUB package.
pub const EPUB_STYLES: &'static str = "html{writing-mode:horizontal-tb;}body{font-family:serif;line-height:1.8;margin:5%;}h1{text-align:center;page-break-before:always;margin:2em 0;}p{text-indent:2em;margin:0;}";

/// The table-of-contents entries of the first chapters.
pub open spec fn nav_items(chapters: Seq<BookChapterModel>) -> Seq<char>
    decreases chapters.len(),
{
    if chapters.len() == 0 {
        Seq::empty()
    } else {
        nav_items(chapters.drop_last()) + "<li><a href=\"chapter-"@ + decimal(chapters.len())
            + ".xhtml\">"@ + escaped(chapters.last().title) + "</a></li>"@
    }
}

/// `OEBPS/nav.xhtml`: the table of contents.
pub open spec fn epub_navigation_xhtml(p: BookProjectModel) -> Seq<char> {
    "<?xml version=\"1.0\" encoding=\"UTF-8\"?><html xmlns=\"http://www.w3.org/1999/xhtml\" xmlns:epub=\"http://www.idpf.org/2007/ops\" lang=\""@
        + escaped(p.target_language)
        + "\"><head><title>目录</title></head><body><nav epub:type=\"toc\" id=\"toc\"><h1>目录</h1><ol>"@
        + nav_items(p.chapters) + "</ol></nav></body></html>"@
}

/// The manifest items of the first `n` chapters.
pub open spec fn manifest_items(n: nat) -> Seq<char>
    decreases n,
{
    if n == 0 {
        Seq::empty()
    } else {
        manifest_items((n - 1) as nat) + "<item id=\"chapter-"@ + decimal(n) + "\" href=\"chapter-"@
            + decimal(n) + ".xhtml\" media-type=\"application/xhtml+xml\"/>"@
    }
}

/// The spine references of the first `n` chapters.
pub open spec fn spine_items(n: nat) -> Seq<char>
    decreases n,
{
    if n == 0 {
        Seq::empty()
    } else {
        spine_items((n - 1) as nat) + "<itemref idref=\"chapter-"@ + decimal(n) + "\"/>"@
    }
}

/// The identifier of a book: its ISBN, or else its project id.
pub open spec fn book_identifier(p: BookProjectModel) -> Seq<char> {
    if all_space(p.publication.isbn) {
        p.id
    } else {
        trim(p.publication.isbn)
    }
}

/// The creator, contributor and publisher metadata of a package.
pub open spec fn package_people(m: PublicationModel) -> Seq<char> {
    (if all_space(m.author) {
        Seq::empty()
    } else {
        "<dc:creator>"@ + escaped(m.author) + "</dc:creator>"@
    }) + (if all_space(m.translator) {
        Seq::empty()
    } else {
        "<dc:contributor id=\"translator\">"@ + escaped(m.translator)
            + "</dc:contributor><meta refines=\"#translator\" property=\"role\" scheme=\"marc:relators\">trl</meta>"@
    }) + (if all_space(m.publisher) {
        Seq::empty()
    } else {
        "<dc:publisher>"@ + escaped(m.publisher) + "</dc:publisher>"@
    })
}

/// `OEBPS/content.opf`: the EPUB 3 package document.
pub open spec fn epub_package_opf(p: BookProjectModel) -> Seq<char> {
    "<?xml version=\"1.0\" encoding=\"UTF-8\"?><package xmlns=\"http://www.idpf.org/2007/opf\" version=\"3.0\" unique-identifier=\"book-id\"><metadata xmlns:dc=\"http://purl.org/dc/elements/1.1/\"><dc:identifier id=\"book-id\">"@
        + escaped(book_identifier(p)) + "</dc:identifier><dc:title>"@ + escaped(p.title)
        + "</dc:title><dc:language>"@ + escaped(p.target_language) + "</dc:language>"@
        + package_people(p.publication)
        + "<meta property=\"dcterms:modified\">2026-07-14T00:00:00Z</meta></metadata><manifest><item id=\"nav\" href=\"nav.xhtml\" media-type=\"application/xhtml+xml\" properties=\"nav\"/><item id=\"css\" href=\"styles.css\" media-type=\"text/css\"/>"@
        + manifest_items(p.chapters.len()) + "</manifest><spine>"@ + spine_items(p.chapters.len())
        + "</spine></package>"@
}

/// The paragraphs of a chapter in XHTML.
pub open spec fn xhtml_paragraphs(segments: Seq<BookSegmentModel>) -> Seq<char>
    decreases segments.len(),
{
    if segments.len() == 0 {
        Seq::empty()
    } else {
        let t = manuscript(segments.last());
        xhtml_paragraphs(segments.drop_last()) + if t.len() > 0 {
            "<p>"@ + escaped(t) + "</p>"@
        } else {
            Seq::empty()
        }
    }
}

/// The XHTML document of one chapter.
pub open spec fn epub_chapter_xhtml(p: BookProjectModel, chapter: BookChapterModel) -> Seq<char> {
    "<?xml version=\"1.0\" encoding=\"UTF-8\"?><html xmlns=\"http://www.w3.org/1999/xhtml\" lang=\""@
        + escaped(p.target_language) + "\"><head><title>"@ + escaped(chapter.title)
        + "</title><link rel=\"stylesheet\" type=\"text/css\" href=\"styles.css\"/></head><body><section epub:type=\"chapter\" xmlns:epub=\"http://www.idpf.org/2007/ops\"><h1>"@
        + escaped(chapter.title) + "</h1>"@ + xhtml_paragraphs(chapter.segments)
        + "</section></body></html>"@
}

/// `OEBPS/nav.xhtml` of a book.
pub fn epub_navigation(project: &BookProject) -> (r: String)
    ensures
        r@ == epub_navigation_xhtml(project@),
{
    let mut out = owned(
        "<?xml version=\"1.0\" encoding=\"UTF-8\"?><html xmlns=\"http://www.w3.org/1999/xhtml\" xmlns:epub=\"http://www.idpf.org/2007/ops\" lang=\"",
    );
    push_escaped(&mut out, project.target_language.as_str());
    push_str(
        &mut out,
        "\"><head><title>目录</title></head><body><nav epub:type=\"toc\" id=\"toc\"><h1>目录</h1><ol>",
    );
    let ghost head = out@;
    let ghost models = crate::book::chapter_models(project.chapters@);
    let mut i: usize = 0;
    assert(models.take(0) =~= Seq::<BookChapterModel>::empty());
    assert(head + nav_items(models.take(0)) =~= head);
    while i < project.chapters.len()
        invariant
            i <= project.chapters.len(),
            models == crate::book::chapter_models(project.chapters@),
            out@ == head + nav_items(models.take(i as int)),
        decreases project.chapters.len() - i,
    {
        assert(models.take(i + 1).drop_last() =~= models.take(i as int));
        assert(models.take(i + 1).last() == project.chapters@[i as int]@);
        push_str(&mut out, "<li><a href=\"chapter-");
        push_decimal(&mut out, (i + 1) as u64);
        push_str(&mut out, ".xhtml\">");
        push_escaped(&mut out, project.chapters[i].title.as_str());
        push_str(&mut out, "</a></li>");
        i = i + 1;
        assert(out@ =~= head + nav_items(models.take(i as int)));
    }
    assert(models.take(project.chapters.len() as int) =~= models);
    push_str(&mut out, "</ol></nav></body></html>");
    out
}

fn push_people(out: &mut String, m: &crate::book::PublicationMetadata)
    ensures
        final(out)@ == old(out)@ + package_people(m@),
{
    let ghost start = out@;
    if !is_blank(m.author.as_str()) {
        push_str(out, "<dc:creator>");
        push_escaped(out, m.author.as_str());
        push_str(out, "</dc:creator>");
    }
    let ghost a = out@;
    if !is_blank(m.translator.as_str()) {
        push_str(out, "<dc:contributor id=\"translator\">");
        push_escaped(out, m.translator.as_str());
        push_str(
            out,
            "</dc:contributor><meta refines=\"#translator\" property=\"role\" scheme=\"marc:relators\">trl</meta>",
        );
    }
    let ghost b = out@;
    if !is_blank(m.publisher.as_str()) {
        push_str(out, "<dc:publisher>");
        push_escaped(out, m.publisher.as_str());
        push_str(out, "</dc:publisher>");
    }
    assert(out@ =~= start + package_people(m@));
}

/// `OEBPS/content.opf` of a book.
pub fn epub_package(project: &BookProject) -> (r: String)
    ensures
        r@ == epub_package_opf(project@),
{
    let mut out = owned(
        "<?xml version=\"1.0\" encoding=\"UTF-8\"?><package xmlns=\"http://www.idpf.org/2007/opf\" version=\"3.0\" unique-identifier=\"book-id\"><metadata xmlns:dc=\"http://purl.org/dc/elements/1.1/\"><dc:identifier id=\"book-id\">",
    );
    if is_blank(project.publication.isbn.as_str()) {
        push_escaped(&mut out, project.id.as_str());
    } else {
        let isbn = trimmed(project.publication.isbn.as_str());
        push_escaped(&mut out, isbn.as_str());
    }
    push_str(&mut out, "</dc:identifier><dc:title>");
    push_escaped(&mut out, project.title.as_str());
    push_str(&mut out, "</dc:title><dc:language>");
    push_escaped(&mut out, project.target_language.as_str());
    push_str(&mut out, "</dc:language>");
    push_people(&mut out, &project.publication);
    push_str(
        &mut out,
        "<meta property=\"dcterms:modified\">2026-07-14T00:00:00Z</meta></metadata><manifest><item id=\"nav\" href=\"nav.xhtml\" media-type=\"application/xhtml+xml\" properties=\"nav\"/><item id=\"css\" href=\"styles.css\" media-type=\"text/css\"/>",
    );
    let n = project.chapters.len();
    let ghost head = out@;
    let mut i: usize = 0;
    assert(head + manifest_items(0) =~= head);
    while i < n
        invariant
            i <= n,
            n == project.chapters.len(),
            out@ == head + manifest_items(i as nat),
        decreases n - i,
    {
        push_str(&mut out, "<item id=\"chapter-");
        push_decimal(&mut out, (i + 1) as u64);
        push_str(&mut out, "\" href=\"chapter-");
        push_decimal(&mut out, (i + 1) as u64);
        push_str(&mut out, ".xhtml\" media-type=\"application/xhtml+xml\"/>");
        i = i + 1;
        assert(out@ =~= head + manifest_items(i as nat));
    }
    push_str(&mut out, "</manifest><spine>");
    let ghost head2 = out@;
    let mut j: usize = 0;
    assert(head2 + spine_items(0) =~= head2);
    while j < n
        invariant
            j <= n,
            n == project.chapters.len(),
            out@ == head2 + spine_items(j as nat),
        decreases n - j,
    {
        push_str(&mut out, "<itemref idref=\"chapter-");
        push_decimal(&mut out, (j + 1) as u64);
        push_str(&mut out, "\"/>");
        j = j + 1;
        assert(out@ =~= head2 + spine_items(j as nat));
    }
    push_str(&mut out, "</spine></package>");
    assert(out@ =~= epub_package_opf(project@));
    out
}

/// The XHTML document of one chapter of a book.
pub fn epub_chapter(project: &BookProject, chapter: &BookChapter) -> (r: String)
    ensures
        r@ == epub_chapter_xhtml(project@, chapter@),
{
    let mut out = owned(
        "<?xml version=\"1.0\" encoding=\"UTF-8\"?><html xmlns=\"http://www.w3.org/1999/xhtml\" lang=\"",
    );
    push_escaped(&mut out, project.target_language.as_str());
    push_str(&mut out, "\"><head><title>");
    push_escaped(&mut out, chapter.title.as_str());
    push_str(
        &mut out,
        "</title><link rel=\"stylesheet\" type=\"text/css\" href=\"styles.css\"/></head><body><section epub:type=\"chapter\" xmlns:epub=\"http://www.idpf.org/2007/ops\"><h1>",
    );
    push_escaped(&mut out, chapter.title.as_str());
    push_str(&mut out, "</h1>");
    let ghost head = out@;
    let ghost models = crate::book::book_segment_models(chapter.segments@);
    let mut i: usize = 0;
    assert(models.take(0) =~= Seq::<BookSegmentModel>::empty());
    assert(head + xhtml_paragraphs(models.take(0)) =~= head);
    while i < chapter.segments.len()
        invariant
            i <= chapter.segments.len(),
            models == crate::book::book_segment_models(chapter.segments@),
            out@ == head + xhtml_paragraphs(models.take(i as int)),
        decreases chapter.segments.len() - i,
    {
        assert(models.take(i + 1).drop_last() =~= models.take(i as int));
        assert(models.take(i + 1).last() == chapter.segments@[i as int]@);
        let t = manuscript_text(&chapter.segments[i]);
        if !t.as_str().is_empty() {
            push_str(&mut out, "<p>");
            push_escaped(&mut out, t.as_str());
            push_str(&mut out, "</p>");
        }
        i = i + 1;
        assert(out@ =~= head + xhtml_paragraphs(models.take(i as int)));
    }
    assert(models.take(chapter.segments.len() as int) =~= models);
    push_str(&mut out, "</section></body></html>");
    out
}


// ---------------------------------------------------------------------------
// Packages
// ---------------------------------------------------------------------------
/// One file of a publication package: its name, its text and whether it is
/// compressed (a stored entry otherwise).
#[derive(Clone, Debug, PartialEq, Eq)]
pub struct ArchiveEntry {
    pub name: String,
    pub content: String,
    pub compressed: bool,
}

/// The models of package entries.
pub open spec fn entry_models(v: Seq<ArchiveEntry>) -> Seq<(Seq<char>, Seq<char>, bool)> {
    v.map_values(|e: ArchiveEntry| (e.name@, e.content@, e.compressed))
}

/// The files of a DOCX manuscript, in the order they are written.
pub open spec fn docx_files(p: BookProjectModel) -> Seq<(Seq<char>, Seq<char>, bool)> {
    seq![
        ("[Content_Types].xml"@, DOCX_CONTENT_TYPES@, true),
        ("_rels/.rels"@, DOCX_ROOT_RELS@, true),
        ("word/styles.xml"@, DOCX_STYLES@, true),
        ("word/_rels/document.xml.rels"@, DOCX_DOCUMENT_RELS@, true),
        ("word/document.xml"@, docx_document_xml(p), true),
    ]
}

/// The files of an EPUB 3 book, in the order they are written: the stored
/// `mimetype` first, then the container, styles, navigation, package and one
/// XHTML document per chapter.
pub open spec fn epub_files(p: BookProjectModel) -> Seq<(Seq<char>, Seq<char>, bool)> {
    seq![
        ("mimetype"@, "application/epub+zip"@, false),
        ("META-INF/container.xml"@, EPUB_CONTAINER@, true),
        ("OEBPS/styles.css"@, EPUB_STYLES@, true),
        ("OEBPS/nav.xhtml"@, epub_navigation_xhtml(p), true),
        ("OEBPS/content.opf"@, epub_package_opf(p), true),
    ] + Seq::new(
        p.chapters.len(),
        |i: int|
            (
                "OEBPS/chapter-"@ + decimal((i + 1) as nat) + ".xhtml"@,
                epub_chapter_xhtml(p, p.chapters[i]),
                true,
            ),
    )
}

fn entry(name: &str, content: String, compressed: bool) -> (r: ArchiveEntry)
    ensures
        r.name@ == name@,
        r.content@ == content@,
        r.compressed == compressed,
{
    ArchiveEntry { name: owned(name), content, compressed }
}

/// The name of the XHTML document of chapter `n` (counted from 1) in an EPUB.
pub open spec fn chapter_file_name(n: nat) -> Seq<char> {
    "OEBPS/chapter-"@ + decimal(n) + ".xhtml"@
}

/// A chapter document's name is short, has `h` at its eighth character (where
/// no other file of the book has one), and names only its own chapter.
proof fn lemma_chapter_file_name(n: nat)
    requires
        n < ten_pow(20),
    ensures
        chapter_file_name(n).len() < 41,
        chapter_file_name(n)[7] == 'h',
        forall|m: nat| #[trigger] chapter_file_name(m) == chapter_file_name(n) ==> m == n,
{
    reveal_strlit("OEBPS/chapter-");
    reveal_strlit(".xhtml");
    lemma_decimal_len(n, 20);
    assert forall|m: nat| #[trigger] chapter_file_name(m) == chapter_file_name(n) implies m == n by {
        let a = chapter_file_name(m);
        let b = chapter_file_name(n);
        assert(a.len() == 20 + decimal(m).len());
        assert(decimal(m).len() == decimal(n).len());
        assert(a.subrange(14, 14 + decimal(m).len() as int) =~= decimal(m));
        assert(b.subrange(14, 14 + decimal(n).len() as int) =~= decimal(n));
        lemma_decimal_injective(m, n);
    }
}

/// The five fixed files of a DOCX manuscript have distinct, short names.
proof fn lemma_docx_file_names(p: BookProjectModel)
    ensures
        names_distinct(docx_files(p)),
        names_short(docx_files(p)),
{
    reveal_strlit("[Content_Types].xml");
    reveal_strlit("_rels/.rels");
    reveal_strlit("word/styles.xml");
    reveal_strlit("word/_rels/document.xml.rels");
    reveal_strlit("word/document.xml");
    let f = docx_files(p);
    assert(f[0].0.len() == 19 && f[1].0.len() == 11 && f[2].0.len() == 15);
    assert(f[3].0.len() == 28 && f[4].0.len() == 17);
}

/// The files of an EPUB have distinct, short names.
proof fn lemma_epub_file_names(p: BookProjectModel)
    requires
        p.chapters.len() < 0x1_0000_0000_0000_0000,
    ensures
        names_distinct(epub_files(p)),
        names_short(epub_files(p)),
{
    reveal_strlit("mimetype");
    reveal_strlit("META-INF/container.xml");
    reveal_strlit("OEBPS/styles.css");
    reveal_strlit("OEBPS/nav.xhtml");
    reveal_strlit("OEBPS/content.opf");
    assert(ten_pow(20) == 100000000000000000000) by {
        reveal_with_fuel(ten_pow, 21);
    }
    let f = epub_files(p);
    assert(f[0].0.len() == 8 && f[1].0.len() == 22 && f[2].0.len() == 16);
    assert(f[3].0.len() == 15 && f[4].0.len() == 17);
    assert(f[0].0[7] == 'e' && f[1].0[7] == 'F' && f[2].0[7] == 't');
    assert(f[3].0[7] == 'a' && f[4].0[7] == 'o');
    assert forall|k: int| 5 <= k < f.len() implies #[trigger] f[k].0 == chapter_file_name((k - 4) as nat)
        && f[k].0.len() < 41 && f[k].0[7] == 'h' by {
        lemma_chapter_file_name((k - 4) as nat);
    }
    assert forall|i: int, j: int| 0 <= i < j < f.len() implies #[trigger] f[i].0 != #[trigger] f[j].0 by {
        if 5 <= i {
            lemma_chapter_file_name((i - 4) as nat);
            lemma_chapter_file_name((j - 4) as nat);
        }
    }
}

/// The files of the DOCX manuscript of a book.
pub fn docx_entries(project: &BookProject) -> (r: Vec<ArchiveEntry>)
    ensures
        entry_models(r@) == docx_files(project@),
        names_distinct(entry_models(r@)),
        names_short(entry_models(r@)),
{
    proof {
        lemma_docx_file_names(project@);
    }
    let mut v: Vec<ArchiveEntry> = Vec::new();
    v.push(entry("[Content_Types].xml", owned(DOCX_CONTENT_TYPES), true));
    v.push(entry("_rels/.rels", owned(DOCX_ROOT_RELS), true));
    v.push(entry("word/styles.xml", owned(DOCX_STYLES), true));
    v.push(entry("word/_rels/document.xml.rels", owned(DOCX_DOCUMENT_RELS), true));
    v.push(entry("word/document.xml", docx_document(project), true));
    assert(entry_models(v@) =~= docx_files(project@));
    v
}

/// The files of the EPUB 3 edition of a book.
pub fn epub_entries(project: &BookProject) -> (r: Vec<ArchiveEntry>)
    ensures
        entry_models(r@) == epub_files(project@),
        names_distinct(entry_models(r@)),
        names_short(entry_models(r@)),
{
    proof {
        assert(project@.chapters.len() == project.chapters.len());
        lemma_epub_file_names(project@);
    }
    let mut v: Vec<ArchiveEntry> = Vec::new();
    v.push(entry("mimetype", owned("application/epub+zip"), false));
    v.push(entry("META-INF/container.xml", owned(EPUB_CONTAINER), true));
    v.push(entry("OEBPS/styles.css", owned(EPUB_STYLES), true));
    v.push(entry("OEBPS/nav.xhtml", epub_navigation(project), true));
    v.push(entry("OEBPS/content.opf", epub_package(project), true));
    let ghost p = project@;
    let ghost fixed = entry_models(v@);
    let mut i: usize = 0;
    while i < project.chapters.len()
        invariant
            i <= project.chapters.len(),
            p == project@,
            v.len() == 5 + i,
            entry_models(v@).take(5) == fixed,
            fixed == epub_files(p).take(5),
            forall|j: int|
                0 <= j < i ==> #[trigger] entry_models(v@)[5 + j] == epub_files(p)[5 + j],
        decreases project.chapters.len() - i,
    {
        let mut name = owned("OEBPS/chapter-");
        push_decimal(&mut name, (i + 1) as u64);
        push_str(&mut name, ".xhtml");
        let content = epub_chapter(project, &project.chapters[i]);
        let e = ArchiveEntry { name, content, compressed: true };
        let ghost before = v@;
        v.push(e);
        proof {
            assert(p.chapters[i as int] == project.chapters@[i as int]@);
            assert(entry_models(v@) =~= entry_models(before).push((e.name@, e.content@, true)));
            assert(entry_models(v@).take(5) =~= entry_models(before).take(5));
        }
        i = i + 1;
    }
    proof {
        let a = entry_models(v@);
        let b = epub_files(p);
        assert(b.len() == 5 + p.chapters.len());
        assert forall|k: int| 0 <= k < a.len() implies a[k] == b[k] by {
            if k < 5 {
                assert(a.take(5)[k] == a[k]);
                assert(b.take(5)[k] == b[k]);
            } else {
                assert(a[5 + (k - 5)] == b[5 + (k - 5)]);
            }
        }
        assert(a =~= b);
    }
    v
}

// ---------------------------------------------------------------------------
// Print layout
// ---------------------------------------------------------------------------
/// A `label：value` line for a filled-in field.
pub open spec fn publication_line(label: Seq<char>, value: Seq<char>) -> Seq<Seq<char>> {
    if all_space(value) {
        Seq::empty()
    } else {
        seq![label + "："@ + trim(value)]
    }
}

/// The front-matter lines of a title page.
pub open spec fn publication_lines_of(m: PublicationModel) -> Seq<Seq<char>> {
    publication_line("作者"@, m.author) + publication_line("译者"@, m.translator) + publication_line(
        "出版社"@,
        m.publisher,
    ) + publication_line("ISBN"@, m.isbn) + publication_line("版权"@, m.copyright)
}

fn push_publication_line(lines: &mut Vec<String>, label: &str, value: &str)
    ensures
        crate::book_text::string_texts(final(lines)@) == crate::book_text::string_texts(old(lines)@)
            + publication_line(label@, value@),
{
    let ghost before = lines@;
    if !is_blank(value) {
        let mut line = owned(label);
        push_str(&mut line, "：");
        let t = trimmed(value);
        push_str(&mut line, t.as_str());
        lines.push(line);
        assert(crate::book_text::string_texts(lines@) =~= crate::book_text::string_texts(before)
            + seq![line@]);
    } else {
        assert(crate::book_text::string_texts(lines@) =~= crate::book_text::string_texts(before)
            + Seq::<Seq<char>>::empty());
    }
}

/// The front-matter lines of a book's title page.
pub fn publication_lines(project: &BookProject) -> (r: Vec<String>)
    ensures
        crate::book_text::string_texts(r@) == publication_lines_of(project@.publication),
{
    let mut lines: Vec<String> = Vec::new();
    assert(crate::book_text::string_texts(lines@) =~= Seq::<Seq<char>>::empty());
    let m = &project.publication;
    push_publication_line(&mut lines, "作者", m.author.as_str());
    push_publication_line(&mut lines, "译者", m.translator.as_str());
    push_publication_line(&mut lines, "出版社", m.publisher.as_str());
    push_publication_line(&mut lines, "ISBN", m.isbn.as_str());
    push_publication_line(&mut lines, "版权", m.copyright.as_str());
    assert(crate::book_text::string_texts(lines@) =~= publication_lines_of(project@.publication));
    lines
}


/// Closing punctuation that must not open a printed line.
pub open spec fn is_closing_mark(c: char) -> bool {
    c == '，' || c == '。' || c == '！' || c == '？' || c == '；' || c == '：' || c == '、' || c == '）'
        || c == '》' || c == '】' || c == '」' || c == '』' || c == '…'
}

fn is_closing_mark_exec(c: char) -> (r: bool)
    ensures
        r == is_closing_mark(c),
{
    c == '，' || c == '。' || c == '！' || c == '？' || c == '；' || c == '：' || c == '、' || c == '）'
        || c == '》' || c == '】' || c == '」' || c == '』' || c == '…'
}

/// How many characters a line starting at `start` first takes: at most `max`,
/// but never leaving a tail of one to three characters for the next line
/// (then it gives up enough to make the tail four, keeping at least one).
pub open spec fn base_take(remaining: int, max: int) -> int {
    let take = if remaining < max {
        remaining
    } else {
        max
    };
    let tail = remaining - take;
    if tail > 0 && tail < 4 {
        let less = if take >= 4 - tail {
            take - (4 - tail)
        } else {
            0
        };
        if less < 1 {
            1
        } else {
            less
        }
    } else {
        take
    }
}

/// The line length grown over any closing marks that follow it.
pub open spec fn grown_take(chars: Seq<char>, start: int, take: int) -> int
    decreases chars.len() - start - take,
{
    if start + take < chars.len() && is_closing_mark(chars[start + take]) {
        grown_take(chars, start, take + 1)
    } else {
        take
    }
}

/// The length of the printed line that starts at `start`.
pub open spec fn line_take(chars: Seq<char>, start: int, max: int) -> int {
    grown_take(chars, start, base_take(chars.len() - start, max))
}

pub proof fn lemma_grown_take(chars: Seq<char>, start: int, take: int)
    requires
        0 <= start,
        0 <= take,
        start + take <= chars.len(),
    ensures
        take <= grown_take(chars, start, take),
        start + grown_take(chars, start, take) <= chars.len(),
    decreases chars.len() - start - take,
{
    if start + take < chars.len() && is_closing_mark(chars[start + take]) {
        lemma_grown_take(chars, start, take + 1);
    }
}

pub proof fn lemma_line_take(chars: Seq<char>, start: int, max: int)
    requires
        0 <= start < chars.len(),
        max >= 1,
    ensures
        1 <= line_take(chars, start, max),
        start + line_take(chars, start, max) <= chars.len(),
{
    lemma_grown_take(chars, start, base_take(chars.len() - start, max));
}

/// The printed lines of a paragraph from `start` on; the paragraph's first
/// line is indented by two ideographic spaces.
pub open spec fn lines_from(chars: Seq<char>, max: int, start: int) -> Seq<Seq<char>>
    decreases chars.len() - start,
{
    if start < 0 || start >= chars.len() || max < 1 {
        Seq::empty()
    } else {
        proof {
            lemma_line_take(chars, start, max);
        }
        let take = line_take(chars, start, max);
        let piece = chars.subrange(start, start + take);
        let line = if start == 0 {
            "　　"@ + piece
        } else {
            piece
        };
        seq![line] + lines_from(chars, max, start + take)
    }
}

/// The printed lines of a text: each of its lines trimmed and, unless empty,
/// broken into lines of about `max` characters.
pub open spec fn wrapped(lines: Seq<Seq<char>>, max: int) -> Seq<Seq<char>>
    decreases lines.len(),
{
    if lines.len() == 0 {
        Seq::empty()
    } else {
        wrapped(lines.drop_last(), max) + lines_from(trim(lines.last()), max, 0)
    }
}

fn line_take_exec(chars: &Vec<char>, start: usize, max: usize) -> (r: usize)
    requires
        start < chars.len(),
        max >= 1,
    ensures
        r == line_take(chars@, start as int, max as int),
        1 <= r,
        start + r <= chars.len(),
{
    proof {
        lemma_line_take(chars@, start as int, max as int);
    }
    let remaining = chars.len() - start;
    let mut take = if remaining < max {
        remaining
    } else {
        max
    };
    let tail = remaining - take;
    if tail > 0 && tail < 4 {
        let less = if take >= 4 - tail {
            take - (4 - tail)
        } else {
            0
        };
        take = if less < 1 {
            1
        } else {
            less
        };
    }
    assert(take == base_take(remaining as int, max as int));
    proof {
        lemma_grown_take(chars@, start as int, take as int);
    }
    while start + take < chars.len() && is_closing_mark_exec(chars[start + take])
        invariant
            start + take <= chars.len(),
            grown_take(chars@, start as int, take as int) == line_take(chars@, start as int, max as int),
        decreases chars.len() - start - take,
    {
        take = take + 1;
    }
    take
}

fn push_lines_of(out: &mut Vec<String>, chars: &Vec<char>, max: usize)
    requires
        max >= 1,
    ensures
        crate::book_text::string_texts(final(out)@) == crate::book_text::string_texts(old(out)@)
            + lines_from(chars@, max as int, 0),
{
    let ghost before = crate::book_text::string_texts(out@);
    let mut start: usize = 0;
    proof {
        reveal_strlit("　　");
    }
    assert(before + Seq::<Seq<char>>::empty() =~= before);
    while start < chars.len()
        invariant
            start <= chars.len(),
            max >= 1,
            before + lines_from(chars@, max as int, 0) == crate::book_text::string_texts(out@)
                + lines_from(chars@, max as int, start as int),
        decreases chars.len() - start,
    {
        let take = line_take_exec(chars, start, max);
        let piece = slice_chars(chars.as_slice(), start, start + take);
        let mut line = if start == 0 {
            owned("　　")
        } else {
            String::new()
        };
        crate::text::push_chars(&mut line, piece.as_slice());
        let ghost prev = out@;
        out.push(line);
        proof {
            assert(crate::book_text::string_texts(out@) =~= crate::book_text::string_texts(prev).push(line@));
            let expected = if start == 0 {
                "　　"@ + chars@.subrange(start as int, start + take)
            } else {
                chars@.subrange(start as int, start + take)
            };
            assert(line@ =~= expected);
            assert(lines_from(chars@, max as int, start as int) == seq![expected] + lines_from(
                chars@,
                max as int,
                start + take,
            ));
            assert(crate::book_text::string_texts(prev) + lines_from(chars@, max as int, start as int)
                =~= crate::book_text::string_texts(out@) + lines_from(chars@, max as int, start + take));
        }
        start = start + take;
    }
    assert(lines_from(chars@, max as int, start as int) == Seq::<Seq<char>>::empty());
    assert(crate::book_text::string_texts(out@) + Seq::<Seq<char>>::empty() =~= crate::book_text::string_texts(out@));
}

/// Breaks a manuscript text into printed lines of about `max_chars`
/// characters, indenting each paragraph's first line and keeping closing
/// punctuation off the start of a line.
pub fn wrap_cjk(text: &str, max_chars: usize) -> (r: Vec<String>)
    requires
        max_chars >= 1,
    ensures
        crate::book_text::string_texts(r@) == wrapped(crate::renpy::text_lines(text@), max_chars as int),
{
    let lines = crate::renpy::lines_of(text);
    let ghost ls = lines@.map_values(|l: Vec<char>| l@);
    let mut out: Vec<String> = Vec::new();
    let mut i: usize = 0;
    assert(ls.take(0) =~= Seq::<Seq<char>>::empty());
    assert(crate::book_text::string_texts(out@) =~= Seq::<Seq<char>>::empty());
    while i < lines.len()
        invariant
            i <= lines.len(),
            max_chars >= 1,
            ls == lines@.map_values(|l: Vec<char>| l@),
            crate::book_text::string_texts(out@) == wrapped(ls.take(i as int), max_chars as int),
        decreases lines.len() - i,
    {
        assert(ls.take(i + 1).drop_last() =~= ls.take(i as int));
        assert(ls.take(i + 1).last() == lines@[i as int]@);
        let chars = crate::text::trim_chars(lines[i].as_slice());
        push_lines_of(&mut out, &chars, max_chars);
        i = i + 1;
    }
    assert(ls.take(lines.len() as int) =~= ls);
    out
}

} // verus!
