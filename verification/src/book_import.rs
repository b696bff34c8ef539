use crate::book::{
    book_result, book_text, build_project, built_project, decode_text, draft_models,
    extension_exec, format_of, group_blocks, grouped, is_separator, item_models, lower_extension,
    BookError, BookFault, BookFormat, BookProject, BookProjectModel,
};
use crate::book_text::{
    lower_ascii, lower_ascii_exec, markdown_heading, markdown_title, plain_blocks, split_blocks,
    string_texts, txt_heading, txt_title,
};
use crate::book_xml::{
    document_blocks, first_attribute, first_attribute_exec, last_attribute, last_attribute_exec,
    local_name, local_name_of, text_is, xml_blocks, XmlMode,
};
use crate::text::{chars_of, decimal, owned, push_decimal, push_str, slice_chars, string_from};
use crate::xml::{attributes_model, read_xml_events, tokens_of, xml_tokens, XmlEvent, XmlToken};
use std::io::Read;
use vstd::prelude::*;

verus! {

// ---------------------------------------------------------------------------
// Archives
// ---------------------------------------------------------------------------
/// What reading one entry of a ZIP archive as text gives.
pub enum ZipRead {
    /// The entry's text.
    Text(String),
    /// The bytes are not a ZIP archive; the error's message.
    BadArchive(String),
    /// The archive has no such entry; the error's message.
    Missing(String),
    /// The entry could not be read as UTF-8 text; the error's message.
    Unreadable(String),
}

/// Mathematical model of [`ZipRead`].
pub enum ZipReadModel {
    Text(Seq<char>),
    BadArchive(Seq<char>),
    Missing(Seq<char>),
    Unreadable(Seq<char>),
}

impl View for ZipRead {
    type V = ZipReadModel;

    open spec fn view(&self) -> ZipReadModel {
        match self {
            ZipRead::Text(t) => ZipReadModel::Text(t@),
            ZipRead::BadArchive(m) => ZipReadModel::BadArchive(m@),
            ZipRead::Missing(m) => ZipReadModel::Missing(m@),
            ZipRead::Unreadable(m) => ZipReadModel::Unreadable(m@),
        }
    }
}

/// What the `zip` crate reads from the entry `name` of the archive `archive`
/// (`ZipArchive::new`, `ZipArchive::by_name`, `Read::read_to_string`).
pub uninterp spec fn zip_read(archive: Seq<u8>, name: Seq<char>) -> ZipReadModel;

/// Reads one entry of an in-memory ZIP archive as text. Claimed: the outcome is
/// `zip_read(archive, name)`, a function of the bytes and the name alone.
#[verifier::external_body]
fn read_zip_entry(archive: &[u8], name: &str) -> (r: ZipRead)
    ensures
        r@ == zip_read(archive@, name@),
{
    let mut zip = match zip::ZipArchive::new(std::io::Cursor::new(archive)) {
        Ok(zip) => zip,
        Err(e) => return ZipRead::BadArchive(e.to_string()),
    };
    let mut entry = match zip.by_name(name) {
        Ok(entry) => entry,
        Err(e) => return ZipRead::Missing(e.to_string()),
    };
    let mut text = String::new();
    match entry.read_to_string(&mut text) {
        Ok(_) => ZipRead::Text(text),
        Err(e) => ZipRead::Unreadable(e.to_string()),
    }
}

/// The text of an archive entry, or the error a book reports for it; `kind`
/// names the container (`EPUB`, `DOCX`).
pub open spec fn entry_text(archive: Seq<u8>, name: Seq<char>, kind: Seq<char>) -> Result<Seq<char>, BookFault> {
    match zip_read(archive, name) {
        ZipReadModel::Text(t) => Ok(t),
        ZipReadModel::BadArchive(m) => Err(BookFault::InvalidData(kind + " 容器无效："@ + m)),
        ZipReadModel::Missing(m) => Err(BookFault::InvalidData("书籍容器缺少 "@ + name + "："@ + m)),
        ZipReadModel::Unreadable(m) => Err(BookFault::InvalidData("读取 "@ + name + " 失败："@ + m)),
    }
}

fn archive_text(archive: &[u8], name: &str, kind: &str) -> (r: Result<String, BookError>)
    ensures
        match r {
            Ok(t) => entry_text(archive@, name@, kind@) == Ok::<Seq<char>, BookFault>(t@),
            Err(e) => entry_text(archive@, name@, kind@) == Err::<Seq<char>, BookFault>(e@),
        },
{
    match read_zip_entry(archive, name) {
        ZipRead::Text(t) => Ok(t),
        ZipRead::BadArchive(m) => {
            let mut s = owned(kind);
            push_str(&mut s, " 容器无效：");
            push_str(&mut s, m.as_str());
            Err(BookError::InvalidData(s))
        },
        ZipRead::Missing(m) => {
            let mut s = owned("书籍容器缺少 ");
            push_str(&mut s, name);
            push_str(&mut s, "：");
            push_str(&mut s, m.as_str());
            Err(BookError::InvalidData(s))
        },
        ZipRead::Unreadable(m) => {
            let mut s = owned("读取 ");
            push_str(&mut s, name);
            push_str(&mut s, " 失败：");
            push_str(&mut s, m.as_str());
            Err(BookError::InvalidData(s))
        },
    }
}

/// The model of file contents, or of the error reading them.
pub open spec fn content_model(content: Result<Vec<u8>, String>) -> Result<Seq<u8>, Seq<char>> {
    match content {
        Ok(b) => Ok(b@),
        Err(m) => Err(m@),
    }
}

fn io_error(prefix: &str, detail: &str) -> (e: BookError)
    ensures
        e@ == BookFault::Io(prefix@ + detail@),
{
    let mut s = owned(prefix);
    push_str(&mut s, detail);
    BookError::Io(s)
}

fn invalid_data(prefix: &str, detail: &str) -> (e: BookError)
    ensures
        e@ == BookFault::InvalidData(prefix@ + detail@),
{
    let mut s = owned(prefix);
    push_str(&mut s, detail);
    BookError::InvalidData(s)
}

// ---------------------------------------------------------------------------
// Plain text
// ---------------------------------------------------------------------------
/// A block read as a heading `(true, title)` or a paragraph `(false, block)`.
pub open spec fn plain_item(format: BookFormat, block: Seq<char>) -> (bool, Seq<char>) {
    let title = if format == BookFormat::Markdown {
        markdown_title(block)
    } else {
        txt_title(block)
    };
    match title {
        Some(t) => (true, t),
        None => (false, block),
    }
}

/// A plain-text book (`Txt` or `Markdown`) read from `path`.
pub open spec fn plain_book(path: Seq<char>, format: BookFormat, content: Result<Seq<u8>, Seq<char>>) -> Result<
    BookProjectModel,
    BookFault,
> {
    match content {
        Err(e) => Err(BookFault::Io("读取书籍失败："@ + e)),
        Ok(bytes) => match book_text(bytes) {
            Err(m) => Err(BookFault::InvalidData(m)),
            Ok(text) => built_project(
                path,
                format,
                grouped(plain_blocks(text).map_values(|b: Seq<char>| plain_item(format, b))),
            ),
        },
    }
}

fn parse_plain_text(path: &str, format: BookFormat, content: &Result<Vec<u8>, String>) -> (r: Result<
    BookProject,
    BookError,
>)
    requires
        format == BookFormat::Txt || format == BookFormat::Markdown,
    ensures
        book_result(r) == plain_book(path@, format, content_model(*content)),
{
    let bytes = match content {
        Err(e) => return Err(io_error("读取书籍失败：", e.as_str())),
        Ok(b) => b,
    };
    let text = match decode_text(bytes.as_slice()) {
        Err(e) => return Err(e),
        Ok(t) => t,
    };
    let blocks = split_blocks(text.as_str());
    let ghost texts = string_texts(blocks@);
    let mut items: Vec<(bool, String)> = Vec::new();
    let mut i: usize = 0;
    while i < blocks.len()
        invariant
            i <= blocks.len(),
            texts == string_texts(blocks@),
            format == BookFormat::Txt || format == BookFormat::Markdown,
            item_models(items@) == texts.take(i as int).map_values(
                |b: Seq<char>| plain_item(format, b),
            ),
        decreases blocks.len() - i,
    {
        let block = &blocks[i];
        let title = if format == BookFormat::Markdown {
            markdown_heading(block.as_str())
        } else {
            txt_heading(block.as_str())
        };
        let item = match title {
            Some(t) => (true, t),
            None => (false, owned(block.as_str())),
        };
        let ghost before = items@;
        items.push(item);
        proof {
            assert(texts[i as int] == block@);
            assert(texts.take(i + 1) =~= texts.take(i as int).push(texts[i as int]));
            assert(item_models(items@) =~= item_models(before).push((item.0, item.1@)));
            assert(texts.take(i + 1).map_values(|b: Seq<char>| plain_item(format, b))
                =~= texts.take(i as int).map_values(|b: Seq<char>| plain_item(format, b)).push(
                plain_item(format, texts[i as int]),
            ));
        }
        i = i + 1;
    }
    assert(texts.take(blocks.len() as int) =~= texts);
    let chapters = group_blocks(&items);
    build_project(path, format, &chapters)
}

// ---------------------------------------------------------------------------
// DOCX
// ---------------------------------------------------------------------------
/// A DOCX book read from `path`: the paragraphs of `word/document.xml`, with
/// heading styles opening chapters.
pub open spec fn docx_book(path: Seq<char>, content: Result<Seq<u8>, Seq<char>>) -> Result<
    BookProjectModel,
    BookFault,
> {
    match content {
        Err(e) => Err(BookFault::Io("读取 DOCX 失败："@ + e)),
        Ok(bytes) => match entry_text(bytes, "word/document.xml"@, "DOCX"@) {
            Err(f) => Err(f),
            Ok(xml) => match document_blocks(XmlMode::Docx, xml) {
                Err(m) => Err(BookFault::InvalidData(m)),
                Ok(blocks) => built_project(path, BookFormat::Docx, grouped(blocks)),
            },
        },
    }
}

fn parse_docx(path: &str, content: &Result<Vec<u8>, String>) -> (r: Result<BookProject, BookError>)
    ensures
        book_result(r) == docx_book(path@, content_model(*content)),
{
    let bytes = match content {
        Err(e) => return Err(io_error("读取 DOCX 失败：", e.as_str())),
        Ok(b) => b,
    };
    let document = match archive_text(bytes.as_slice(), "word/document.xml", "DOCX") {
        Err(e) => return Err(e),
        Ok(d) => d,
    };
    let blocks = match xml_blocks(document.as_str(), XmlMode::Docx) {
        Err(e) => return Err(e),
        Ok(b) => b,
    };
    let chapters = group_blocks(&blocks);
    build_project(path, BookFormat::Docx, &chapters)
}

// ---------------------------------------------------------------------------
// EPUB
// ---------------------------------------------------------------------------
/// The value of `attribute` on the first `element` of a document, if that
/// element comes before the end of the document or a syntax error.
pub open spec fn element_attribute(tokens: Seq<XmlToken>, element: Seq<char>, attribute: Seq<char>) -> Option<
    Seq<char>,
>
    decreases tokens.len(),
{
    if tokens.len() == 0 {
        None
    } else {
        match tokens[0] {
            XmlToken::Start { name, attributes } => if local_name(name) == element {
                first_attribute(attributes, attribute)
            } else {
                element_attribute(tokens.drop_first(), element, attribute)
            },
            XmlToken::Empty { name, attributes } => if local_name(name) == element {
                first_attribute(attributes, attribute)
            } else {
                element_attribute(tokens.drop_first(), element, attribute)
            },
            XmlToken::Eof => None,
            XmlToken::Error { .. } => None,
            _ => element_attribute(tokens.drop_first(), element, attribute),
        }
    }
}

/// The attribute of the first element of that name in a document.
pub fn attribute_from_element(xml: &str, element: &str, attribute: &str) -> (r: Option<String>)
    ensures
        match r {
            Some(v) => element_attribute(xml_tokens(xml@, false), element@, attribute@) == Some(v@),
            None => element_attribute(xml_tokens(xml@, false), element@, attribute@) is None,
        },
{
    let events = read_xml_events(xml, false);
    let ghost tokens = tokens_of(events@);
    let mut i: usize = 0;
    assert(tokens.skip(0) =~= tokens);
    while i < events.len()
        invariant
            i <= events.len(),
            tokens == tokens_of(events@),
            tokens == xml_tokens(xml@, false),
            element_attribute(tokens, element@, attribute@) == element_attribute(
                tokens.skip(i as int),
                element@,
                attribute@,
            ),
        decreases events.len() - i,
    {
        assert(tokens.skip(i as int)[0] == events@[i as int]@);
        assert(tokens.skip(i as int).drop_first() =~= tokens.skip(i + 1));
        match &events[i] {
            XmlEvent::Start(name, attributes) => {
                let n = local_name_of(name.as_slice());
                if text_is(&n, element) {
                    return first_attribute_exec(attributes, attribute);
                }
            },
            XmlEvent::Empty(name, attributes) => {
                let n = local_name_of(name.as_slice());
                if text_is(&n, element) {
                    return first_attribute_exec(attributes, attribute);
                }
            },
            XmlEvent::Eof => {
                return None;
            },
            XmlEvent::Error(_) => {
                return None;
            },
            _ => {},
        }
        i = i + 1;
    }
    None
}

/// The manifest entry an element adds, if it is an `item` with an `id` and an
/// `href` (the last of each).
pub open spec fn item_entry(
    entries: Seq<(Seq<char>, Seq<char>)>,
    name: Seq<u8>,
    attributes: Seq<Option<(Seq<u8>, Seq<u8>)>>,
) -> Seq<(Seq<char>, Seq<char>)> {
    if local_name(name) == "item"@ {
        match (last_attribute(attributes, "id"@), last_attribute(attributes, "href"@)) {
            (Some(id), Some(href)) => entries.push((id, href)),
            _ => entries,
        }
    } else {
        entries
    }
}

/// The `(id, href)` entries of an EPUB package's manifest, in document order.
pub open spec fn manifest_entries(tokens: Seq<XmlToken>) -> Seq<(Seq<char>, Seq<char>)>
    decreases tokens.len(),
{
    if tokens.len() == 0 {
        Seq::empty()
    } else {
        let prev = manifest_entries(tokens.drop_last());
        match tokens.last() {
            XmlToken::Start { name, attributes } => item_entry(prev, name, attributes),
            XmlToken::Empty { name, attributes } => item_entry(prev, name, attributes),
            _ => prev,
        }
    }
}

/// The `href` of the last manifest entry with the given id.
pub open spec fn manifest_href(entries: Seq<(Seq<char>, Seq<char>)>, id: Seq<char>) -> Option<Seq<char>>
    decreases entries.len(),
{
    if entries.len() == 0 {
        None
    } else if entries.last().0 == id {
        Some(entries.last().1)
    } else {
        manifest_href(entries.drop_last(), id)
    }
}

/// The spine entry an element adds, if it is an `itemref` with an `idref`.
pub open spec fn spine_entry(ids: Seq<Seq<char>>, name: Seq<u8>, attributes: Seq<Option<(Seq<u8>, Seq<u8>)>>) -> Seq<
    Seq<char>,
> {
    if local_name(name) == "itemref"@ {
        match first_attribute(attributes, "idref"@) {
            Some(id) => ids.push(id),
            None => ids,
        }
    } else {
        ids
    }
}

/// The ids of an EPUB package's spine, in reading order.
pub open spec fn spine_ids(tokens: Seq<XmlToken>) -> Seq<Seq<char>>
    decreases tokens.len(),
{
    if tokens.len() == 0 {
        Seq::empty()
    } else {
        let prev = spine_ids(tokens.drop_last());
        match tokens.last() {
            XmlToken::Start { name, attributes } => spine_entry(prev, name, attributes),
            XmlToken::Empty { name, attributes } => spine_entry(prev, name, attributes),
            _ => prev,
        }
    }
}

/// The manifest of an EPUB package document, as `(id, href)` pairs.
pub fn epub_manifest(xml: &str) -> (r: Vec<(String, String)>)
    ensures
        r@.map_values(|e: (String, String)| (e.0@, e.1@)) == manifest_entries(xml_tokens(xml@, false)),
{
    let events = read_xml_events(xml, false);
    let ghost tokens = tokens_of(events@);
    let mut entries: Vec<(String, String)> = Vec::new();
    let mut i: usize = 0;
    assert(tokens.take(0) =~= Seq::<XmlToken>::empty());
    assert(entries@.map_values(|e: (String, String)| (e.0@, e.1@)) =~= Seq::<(Seq<char>, Seq<char>)>::empty());
    while i < events.len()
        invariant
            i <= events.len(),
            tokens == tokens_of(events@),
            entries@.map_values(|e: (String, String)| (e.0@, e.1@)) == manifest_entries(
                tokens.take(i as int),
            ),
        decreases events.len() - i,
    {
        proof {
            assert(tokens.take(i + 1).drop_last() =~= tokens.take(i as int));
            assert(tokens.take(i + 1).last() == events@[i as int]@);
        }
        let ghost before = entries@;
        match &events[i] {
            XmlEvent::Start(name, attributes) | XmlEvent::Empty(name, attributes) => {
                let n = local_name_of(name.as_slice());
                if text_is(&n, "item") {
                    let id = last_attribute_exec(attributes, "id");
                    let href = last_attribute_exec(attributes, "href");
                    match (id, href) {
                        (Some(id), Some(href)) => {
                            entries.push((id, href));
                            assert(entries@.map_values(|e: (String, String)| (e.0@, e.1@))
                                =~= before.map_values(|e: (String, String)| (e.0@, e.1@)).push(
                                (id@, href@),
                            ));
                        },
                        _ => {},
                    }
                }
            },
            _ => {},
        }
        i = i + 1;
    }
    assert(tokens.take(events.len() as int) =~= tokens);
    entries
}

/// The spine of an EPUB package document: the ids in reading order.
pub fn epub_spine(xml: &str) -> (r: Vec<String>)
    ensures
        string_texts(r@) == spine_ids(xml_tokens(xml@, false)),
{
    let events = read_xml_events(xml, false);
    let ghost tokens = tokens_of(events@);
    let mut ids: Vec<String> = Vec::new();
    let mut i: usize = 0;
    assert(tokens.take(0) =~= Seq::<XmlToken>::empty());
    assert(string_texts(ids@) =~= Seq::<Seq<char>>::empty());
    while i < events.len()
        invariant
            i <= events.len(),
            tokens == tokens_of(events@),
            string_texts(ids@) == spine_ids(tokens.take(i as int)),
        decreases events.len() - i,
    {
        proof {
            assert(tokens.take(i + 1).drop_last() =~= tokens.take(i as int));
            assert(tokens.take(i + 1).last() == events@[i as int]@);
        }
        let ghost before = ids@;
        match &events[i] {
            XmlEvent::Start(name, attributes) | XmlEvent::Empty(name, attributes) => {
                let n = local_name_of(name.as_slice());
                if text_is(&n, "itemref") {
                    match first_attribute_exec(attributes, "idref") {
                        Some(id) => {
                            ids.push(id);
                            assert(string_texts(ids@) =~= string_texts(before).push(id@));
                        },
                        None => {},
                    }
                }
            },
            _ => {},
        }
        i = i + 1;
    }
    assert(tokens.take(events.len() as int) =~= tokens);
    ids
}

/// The folder of a package path (`Path::parent`), empty for a bare name.
pub open spec fn package_folder(root: Seq<char>) -> Seq<char> {
    match last_separator(root) {
        Some(k) => if k == 0 {
            root.take(1)
        } else {
            root.take(k)
        },
        None => Seq::empty(),
    }
}

/// The position of the last separator in `s`.
pub open spec fn last_separator(s: Seq<char>) -> Option<int>
    decreases s.len(),
{
    if s.len() == 0 {
        None
    } else if is_separator(s.last()) {
        Some(s.len() - 1)
    } else {
        last_separator(s.drop_last())
    }
}

/// The archive entry of `href` relative to `folder` (`Path::join`, then every
/// backslash made a slash).
pub open spec fn entry_path(folder: Seq<char>, href: Seq<char>) -> Seq<char> {
    let joined = if folder.len() == 0 || (href.len() > 0 && is_separator(href[0])) {
        href
    } else if is_separator(folder.last()) {
        folder + href
    } else {
        folder + "/"@ + href
    };
    joined.map_values(|c: char| if c == '\\' { '/' } else { c })
}

/// The texts of the blocks that are not headings.
pub open spec fn body_texts(blocks: Seq<(bool, Seq<char>)>) -> Seq<Seq<char>>
    decreases blocks.len(),
{
    if blocks.len() == 0 {
        Seq::empty()
    } else if blocks.last().0 {
        body_texts(blocks.drop_last())
    } else {
        body_texts(blocks.drop_last()).push(blocks.last().1)
    }
}

/// The text of the first heading block.
pub open spec fn first_heading(blocks: Seq<(bool, Seq<char>)>) -> Option<Seq<char>>
    decreases blocks.len(),
{
    if blocks.len() == 0 {
        None
    } else if blocks[0].0 {
        Some(blocks[0].1)
    } else {
        first_heading(blocks.drop_first())
    }
}

/// The title of the chapter read from the `index`-th spine entry.
pub open spec fn spine_title(blocks: Seq<(bool, Seq<char>)>, index: nat) -> Seq<char> {
    match first_heading(blocks) {
        Some(t) => t,
        None => "章节 "@ + decimal(index + 1),
    }
}

/// The chapters read from the first `n` spine entries: each entry found in the
/// manifest is read from the archive; the ones with paragraphs become chapters.
pub open spec fn spine_chapters(
    archive: Seq<u8>,
    folder: Seq<char>,
    manifest: Seq<(Seq<char>, Seq<char>)>,
    spine: Seq<Seq<char>>,
    n: nat,
) -> Result<Seq<(Seq<char>, Seq<Seq<char>>)>, BookFault>
    decreases n,
{
    if n == 0 {
        Ok(Seq::empty())
    } else {
        match spine_chapters(archive, folder, manifest, spine, (n - 1) as nat) {
            Err(f) => Err(f),
            Ok(prev) => match manifest_href(manifest, spine[n - 1]) {
                None => Ok(prev),
                Some(href) => match entry_text(archive, entry_path(folder, href), "EPUB"@) {
                    Err(f) => Err(f),
                    Ok(xhtml) => match document_blocks(XmlMode::Html, xhtml) {
                        Err(m) => Err(BookFault::InvalidData(m)),
                        Ok(blocks) => {
                            let paragraphs = body_texts(blocks);
                            if paragraphs.len() > 0 {
                                Ok(prev.push((spine_title(blocks, (n - 1) as nat), paragraphs)))
                            } else {
                                Ok(prev)
                            }
                        },
                    },
                },
            },
        }
    }
}

/// An EPUB book read from `path`: the package named by `META-INF/container.xml`,
/// its spine read in order.
pub open spec fn epub_book(path: Seq<char>, content: Result<Seq<u8>, Seq<char>>) -> Result<
    BookProjectModel,
    BookFault,
> {
    match content {
        Err(e) => Err(BookFault::Io("读取 EPUB 失败："@ + e)),
        Ok(bytes) => match entry_text(bytes, "META-INF/container.xml"@, "EPUB"@) {
            Err(f) => Err(f),
            Ok(container) => match element_attribute(
                xml_tokens(container, false),
                "rootfile"@,
                "full-path"@,
            ) {
                None => Err(BookFault::InvalidData("EPUB 缺少 OPF 根文件"@)),
                Some(root) => match entry_text(bytes, root, "EPUB"@) {
                    Err(f) => Err(f),
                    Ok(package) => {
                        let tokens = xml_tokens(package, false);
                        let spine = spine_ids(tokens);
                        match spine_chapters(
                            bytes,
                            package_folder(root),
                            manifest_entries(tokens),
                            spine,
                            spine.len(),
                        ) {
                            Err(f) => Err(f),
                            Ok(chapters) => built_project(path, BookFormat::Epub, chapters),
                        }
                    },
                },
            },
        },
    }
}


fn last_separator_exec(v: &Vec<char>) -> (r: Option<usize>)
    ensures
        match r {
            Some(k) => last_separator(v@) == Some(k as int) && k < v.len(),
            None => last_separator(v@) is None,
        },
{
    let mut end = v.len();
    assert(v@.take(v.len() as int) =~= v@);
    while end > 0
        invariant
            end <= v.len(),
            last_separator(v@) == last_separator(v@.take(end as int)),
        decreases end,
    {
        assert(v@.take(end as int).drop_last() =~= v@.take(end - 1));
        if v[end - 1] == '/' || v[end - 1] == '\\' {
            return Some(end - 1);
        }
        end = end - 1;
    }
    None
}

fn package_folder_exec(root: &str) -> (r: Vec<char>)
    ensures
        r@ == package_folder(root@),
{
    let v = chars_of(root);
    match last_separator_exec(&v) {
        Some(k) => if k == 0 {
            slice_chars(v.as_slice(), 0, 1)
        } else {
            slice_chars(v.as_slice(), 0, k)
        },
        None => Vec::new(),
    }
}

fn entry_path_exec(folder: &Vec<char>, href: &str) -> (r: String)
    ensures
        r@ == entry_path(folder@, href@),
{
    let h = chars_of(href);
    let mut joined: Vec<char> = Vec::new();
    if folder.len() == 0 || (h.len() > 0 && (h[0] == '/' || h[0] == '\\')) {
        joined = slice_chars(h.as_slice(), 0, h.len());
    } else {
        joined = slice_chars(folder.as_slice(), 0, folder.len());
        if !(folder[folder.len() - 1] == '/' || folder[folder.len() - 1] == '\\') {
            joined.push('/');
        }
        let mut tail = slice_chars(h.as_slice(), 0, h.len());
        joined.append(&mut tail);
    }
    proof {
        reveal_strlit("/");
    }
    let ghost j = if folder@.len() == 0 || (href@.len() > 0 && is_separator(href@[0])) {
        href@
    } else if is_separator(folder@.last()) {
        folder@ + href@
    } else {
        folder@ + "/"@ + href@
    };
    assert(joined@ =~= j);
    let mut out: Vec<char> = Vec::new();
    let mut i: usize = 0;
    while i < joined.len()
        invariant
            i <= joined.len(),
            out@ == joined@.take(i as int).map_values(|c: char| if c == '\\' { '/' } else { c }),
        decreases joined.len() - i,
    {
        let c = joined[i];
        out.push(if c == '\\' { '/' } else { c });
        i = i + 1;
        assert(out@ =~= joined@.take(i as int).map_values(|c: char| if c == '\\' { '/' } else { c }));
    }
    assert(joined@.take(joined.len() as int) =~= joined@);
    string_from(out.as_slice())
}

fn manifest_href_exec(entries: &Vec<(String, String)>, id: &str) -> (r: Option<String>)
    ensures
        match r {
            Some(h) => manifest_href(entries@.map_values(|e: (String, String)| (e.0@, e.1@)), id@) == Some(h@),
            None => manifest_href(entries@.map_values(|e: (String, String)| (e.0@, e.1@)), id@) is None,
        },
{
    let ghost all = entries@.map_values(|e: (String, String)| (e.0@, e.1@));
    let mut end = entries.len();
    assert(all.take(all.len() as int) =~= all);
    while end > 0
        invariant
            end <= entries.len(),
            all == entries@.map_values(|e: (String, String)| (e.0@, e.1@)),
            manifest_href(all, id@) == manifest_href(all.take(end as int), id@),
        decreases end,
    {
        assert(all.take(end as int).drop_last() =~= all.take(end - 1));
        assert(all.take(end as int).last() == (entries@[end - 1].0@, entries@[end - 1].1@));
        if crate::text::str_equal(entries[end - 1].0.as_str(), id) {
            return Some(owned(entries[end - 1].1.as_str()));
        }
        end = end - 1;
    }
    None
}

fn body_and_title(blocks: &Vec<(bool, String)>, index: usize) -> (r: (String, Vec<String>))
    requires
        index < usize::MAX,
    ensures
        r.0@ == spine_title(item_models(blocks@), index as nat),
        string_texts(r.1@) == body_texts(item_models(blocks@)),
{
    let ghost all = item_models(blocks@);
    let mut title: Option<String> = None;
    let mut body: Vec<String> = Vec::new();
    let mut i: usize = 0;
    assert(all.take(0) =~= Seq::<(bool, Seq<char>)>::empty());
    assert(all.skip(0) =~= all);
    assert(string_texts(body@) =~= Seq::<Seq<char>>::empty());
    while i < blocks.len()
        invariant
            i <= blocks.len(),
            all == item_models(blocks@),
            string_texts(body@) == body_texts(all.take(i as int)),
            match title {
                Some(t) => first_heading(all) == Some(t@),
                None => first_heading(all) == first_heading(all.skip(i as int)),
            },
        decreases blocks.len() - i,
    {
        assert(all.take(i + 1).drop_last() =~= all.take(i as int));
        assert(all.take(i + 1).last() == all[i as int]);
        assert(all[i as int] == (blocks@[i as int].0, blocks@[i as int].1@));
        assert(all.skip(i as int)[0] == all[i as int]);
        assert(all.skip(i as int).drop_first() =~= all.skip(i + 1));
        if blocks[i].0 {
            if title.is_none() {
                title = Some(owned(blocks[i].1.as_str()));
            }
        } else {
            let ghost before = body@;
            let t = owned(blocks[i].1.as_str());
            body.push(t);
            assert(string_texts(body@) =~= string_texts(before).push(t@));
        }
        i = i + 1;
    }
    assert(all.take(blocks.len() as int) =~= all);
    let name = match title {
        Some(t) => t,
        None => {
            assert(all.skip(blocks.len() as int) =~= Seq::<(bool, Seq<char>)>::empty());
            let mut s = owned("章节 ");
            push_decimal(&mut s, (index + 1) as u64);
            s
        },
    };
    (name, body)
}

fn parse_epub(path: &str, content: &Result<Vec<u8>, String>) -> (r: Result<BookProject, BookError>)
    ensures
        book_result(r) == epub_book(path@, content_model(*content)),
{
    let bytes = match content {
        Err(e) => return Err(io_error("读取 EPUB 失败：", e.as_str())),
        Ok(b) => b,
    };
    let container = match archive_text(bytes.as_slice(), "META-INF/container.xml", "EPUB") {
        Err(e) => return Err(e),
        Ok(c) => c,
    };
    let root = match attribute_from_element(container.as_str(), "rootfile", "full-path") {
        None => return Err(BookError::InvalidData(owned("EPUB 缺少 OPF 根文件"))),
        Some(r) => r,
    };
    let package = match archive_text(bytes.as_slice(), root.as_str(), "EPUB") {
        Err(e) => return Err(e),
        Ok(p) => p,
    };
    let manifest = epub_manifest(package.as_str());
    let spine = epub_spine(package.as_str());
    let folder = package_folder_exec(root.as_str());
    let ghost entries = manifest@.map_values(|e: (String, String)| (e.0@, e.1@));
    let ghost ids = string_texts(spine@);
    let mut chapters: Vec<(String, Vec<String>)> = Vec::new();
    let mut i: usize = 0;
    assert(draft_models(chapters@) =~= Seq::<(Seq<char>, Seq<Seq<char>>)>::empty());
    while i < spine.len()
        invariant
            i <= spine.len(),
            entries == manifest@.map_values(|e: (String, String)| (e.0@, e.1@)),
            ids == string_texts(spine@),
            content_model(*content) == Ok::<Seq<u8>, Seq<char>>(bytes@),
            entry_text(bytes@, "META-INF/container.xml"@, "EPUB"@) == Ok::<Seq<char>, BookFault>(container@),
            element_attribute(xml_tokens(container@, false), "rootfile"@, "full-path"@) == Some(root@),
            entry_text(bytes@, root@, "EPUB"@) == Ok::<Seq<char>, BookFault>(package@),
            entries == manifest_entries(xml_tokens(package@, false)),
            ids == spine_ids(xml_tokens(package@, false)),
            folder@ == package_folder(root@),
            spine_chapters(bytes@, folder@, entries, ids, i as nat) == Ok::<
                Seq<(Seq<char>, Seq<Seq<char>>)>,
                BookFault,
            >(draft_models(chapters@)),
        decreases spine.len() - i,
    {
        assert(ids[i as int] == spine@[i as int]@);
        match manifest_href_exec(&manifest, spine[i].as_str()) {
            None => {},
            Some(href) => {
                let entry = entry_path_exec(&folder, href.as_str());
                let xhtml = match archive_text(bytes.as_slice(), entry.as_str(), "EPUB") {
                    Err(e) => {
                        proof {
                            assert(spine_chapters(bytes@, folder@, entries, ids, (i + 1) as nat)
                                == Err::<Seq<(Seq<char>, Seq<Seq<char>>)>, BookFault>(e@));
                            lemma_spine_stops(bytes@, folder@, entries, ids, (i + 1) as nat, ids.len());
                        }
                        return Err(e);
                    },
                    Ok(x) => x,
                };
                let blocks = match xml_blocks(xhtml.as_str(), XmlMode::Html) {
                    Err(e) => {
                        proof {
                            assert(spine_chapters(bytes@, folder@, entries, ids, (i + 1) as nat)
                                == Err::<Seq<(Seq<char>, Seq<Seq<char>>)>, BookFault>(e@));
                            lemma_spine_stops(bytes@, folder@, entries, ids, (i + 1) as nat, ids.len());
                        }
                        return Err(e);
                    },
                    Ok(b) => b,
                };
                let (title, paragraphs) = body_and_title(&blocks, i);
                if paragraphs.len() > 0 {
                    let ghost before = draft_models(chapters@);
                    let ghost t = title@;
                    let ghost p = string_texts(paragraphs@);
                    chapters.push((title, paragraphs));
                    assert(draft_models(chapters@) =~= before.push((t, p)));
                }
            },
        }
        i = i + 1;
    }
    assert(spine@.len() == ids.len());
    build_project(path, BookFormat::Epub, &chapters)
}

proof fn lemma_spine_stops(
    archive: Seq<u8>,
    folder: Seq<char>,
    manifest: Seq<(Seq<char>, Seq<char>)>,
    spine: Seq<Seq<char>>,
    k: nat,
    n: nat,
)
    requires
        k <= n,
        spine_chapters(archive, folder, manifest, spine, k) is Err,
    ensures
        spine_chapters(archive, folder, manifest, spine, n) == spine_chapters(archive, folder, manifest, spine, k),
    decreases n - k,
{
    if k < n {
        lemma_spine_stops(archive, folder, manifest, spine, k, (n - 1) as nat);
    }
}

// ---------------------------------------------------------------------------
// Any book
// ---------------------------------------------------------------------------
/// A book read from `path` and the contents of that file (or the error reading
/// it): the lower-cased extension picks the format.
pub open spec fn parsed_book(path: Seq<char>, content: Result<Seq<u8>, Seq<char>>) -> Result<
    BookProjectModel,
    BookFault,
> {
    let extension = lower_extension(path);
    match format_of(extension) {
        None => Err(BookFault::UnsupportedFormat(extension)),
        Some(BookFormat::Txt) => plain_book(path, BookFormat::Txt, content),
        Some(BookFormat::Markdown) => plain_book(path, BookFormat::Markdown, content),
        Some(BookFormat::Epub) => epub_book(path, content),
        Some(BookFormat::Docx) => docx_book(path, content),
    }
}

/// Reads a book from the contents of the file at `path` (or the error reading
/// them); the source file itself is never changed.
pub fn parse_book(path: &str, content: &Result<Vec<u8>, String>) -> (r: Result<BookProject, BookError>)
    ensures
        book_result(r) == parsed_book(path@, content_model(*content)),
{
    let extension = match extension_exec(path) {
        Some(e) => lower_ascii_exec(&e),
        None => Vec::new(),
    };
    proof {
        if crate::book::path_extension(path@) is None {
            assert(extension@ =~= Seq::<char>::empty());
        }
    }
    if text_is(&extension, "txt") {
        parse_plain_text(path, BookFormat::Txt, content)
    } else if text_is(&extension, "md") || text_is(&extension, "markdown") {
        parse_plain_text(path, BookFormat::Markdown, content)
    } else if text_is(&extension, "epub") {
        parse_epub(path, content)
    } else if text_is(&extension, "docx") {
        parse_docx(path, content)
    } else {
        Err(BookError::UnsupportedFormat(string_from(extension.as_slice())))
    }
}

} // verus!
