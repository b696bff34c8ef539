use crate::book_text::{
    lower_ascii, markdown_heading, markdown_title, plain_blocks, split_blocks, string_texts,
    txt_heading, txt_title,
};
use crate::patch::{hex, hex_text, sha256, sha256_digest};
use crate::renpy::{last_index, last_index_of, lemma_last_index};
use crate::text::{chars_of, decimal, owned, push_decimal, push_str, slice_chars, string_from};
use crate::xml::{utf8_error_message, utf8_text};
use encoding_rs::GBK;
use vstd::prelude::*;
use vstd::utf8::{decode_utf8, encode_utf8, valid_utf8};

verus! {

/// The source format of a book.
#[derive(Clone, Copy, Debug, PartialEq, Eq, Structural)]
pub enum BookFormat {
    Txt,
    Markdown,
    Epub,
    Docx,
}

/// Where a segment stands in the translation workflow.
#[derive(Clone, Copy, Debug, PartialEq, Eq, Structural)]
pub enum SegmentStatus {
    Untranslated,
    Draft,
    Reviewed,
    Issue,
}

/// A format a finished book can be exported to.
#[derive(Clone, Copy, Debug, PartialEq, Eq, Structural)]
pub enum BookExportFormat {
    Markdown,
    Docx,
    Epub,
    Pdf,
}

/// The file extension of an export format.
pub open spec fn export_extension(format: BookExportFormat) -> Seq<char> {
    match format {
        BookExportFormat::Markdown => "md"@,
        BookExportFormat::Docx => "docx"@,
        BookExportFormat::Epub => "epub"@,
        BookExportFormat::Pdf => "pdf"@,
    }
}

impl BookExportFormat {
    /// The file extension of the format.
    pub fn extension(self) -> (r: &'static str)
        ensures
            r@ == export_extension(self),
    {
        match self {
            BookExportFormat::Markdown => "md",
            BookExportFormat::Docx => "docx",
            BookExportFormat::Epub => "epub",
            BookExportFormat::Pdf => "pdf",
        }
    }
}

/// A Chinese publication page size.
#[derive(Clone, Copy, Debug, PartialEq, Eq, Structural)]
pub enum PrintPreset {
    Large32,
    A5,
    Sixteen,
}

impl Default for PrintPreset {
    fn default() -> (r: PrintPreset)
        ensures
            r == PrintPreset::Large32,
    {
        PrintPreset::Large32
    }
}

/// The finished page width and height of a preset, in millimetres.
pub open spec fn page_size_mm(preset: PrintPreset) -> (u32, u32) {
    match preset {
        PrintPreset::Large32 => (140, 203),
        PrintPreset::A5 => (148, 210),
        PrintPreset::Sixteen => (185, 260),
    }
}

/// The finished page width and height of a preset, in whole millimetres.
pub fn print_dimensions_mm(preset: PrintPreset) -> (r: (u32, u32))
    ensures
        r == page_size_mm(preset),
{
    match preset {
        PrintPreset::Large32 => (140, 203),
        PrintPreset::A5 => (148, 210),
        PrintPreset::Sixteen => (185, 260),
    }
}

/// Front-matter of a book.
#[derive(Clone, Debug, PartialEq, Eq)]
pub struct PublicationMetadata {
    pub author: String,
    pub translator: String,
    pub publisher: String,
    pub isbn: String,
    pub copyright: String,
    pub cover_path: String,
    pub print_preset: PrintPreset,
}

/// Mathematical model of [`PublicationMetadata`].
pub struct PublicationModel {
    pub author: Seq<char>,
    pub translator: Seq<char>,
    pub publisher: Seq<char>,
    pub isbn: Seq<char>,
    pub copyright: Seq<char>,
    pub cover_path: Seq<char>,
    pub print_preset: PrintPreset,
}

impl View for PublicationMetadata {
    type V = PublicationModel;

    open spec fn view(&self) -> PublicationModel {
        PublicationModel {
            author: self.author@,
            translator: self.translator@,
            publisher: self.publisher@,
            isbn: self.isbn@,
            copyright: self.copyright@,
            cover_path: self.cover_path@,
            print_preset: self.print_preset,
        }
    }
}

/// Front-matter with every field empty, on the default page size.
pub open spec fn blank_publication() -> PublicationModel {
    PublicationModel {
        author: Seq::empty(),
        translator: Seq::empty(),
        publisher: Seq::empty(),
        isbn: Seq::empty(),
        copyright: Seq::empty(),
        cover_path: Seq::empty(),
        print_preset: PrintPreset::Large32,
    }
}

impl Default for PublicationMetadata {
    fn default() -> (r: PublicationMetadata)
        ensures
            r@ == blank_publication(),
    {
        PublicationMetadata {
            author: String::new(),
            translator: String::new(),
            publisher: String::new(),
            isbn: String::new(),
            copyright: String::new(),
            cover_path: String::new(),
            print_preset: PrintPreset::Large32,
        }
    }
}

/// How a book is laid out when it is printed.
#[derive(Clone, Copy, Debug, PartialEq, Eq, Structural)]
pub struct BookExportProfile {
    pub print_preset: PrintPreset,
    pub include_page_numbers: bool,
    pub chapter_starts_new_page: bool,
}

impl Default for BookExportProfile {
    fn default() -> (r: BookExportProfile)
        ensures
            r == (BookExportProfile {
                print_preset: PrintPreset::Large32,
                include_page_numbers: true,
                chapter_starts_new_page: true,
            }),
    {
        BookExportProfile {
            print_preset: PrintPreset::Large32,
            include_page_numbers: true,
            chapter_starts_new_page: true,
        }
    }
}

/// One finished export of a book.
#[derive(Clone, Debug, PartialEq, Eq)]
pub struct BookExportRecord {
    pub id: String,
    pub project_id: String,
    pub book_title: String,
    pub format: BookExportFormat,
    pub output_path: String,
    pub target_language: String,
    pub exported_at_unix_ms: u64,
    pub profile: BookExportProfile,
}

/// One paragraph of a book with its translation.
#[derive(Clone, Debug, PartialEq, Eq)]
pub struct BookSegment {
    pub id: String,
    pub source: String,
    pub translation: String,
    pub status: SegmentStatus,
    pub qa_note: Option<String>,
    pub terms: Vec<String>,
}

/// A chapter of a book.
#[derive(Clone, Debug, PartialEq, Eq)]
pub struct BookChapter {
    pub id: String,
    pub title: String,
    pub segments: Vec<BookSegment>,
}

/// A book being translated.
#[derive(Clone, Debug, PartialEq, Eq)]
pub struct BookProject {
    pub id: String,
    pub source_path: String,
    pub title: String,
    pub format: BookFormat,
    pub source_language: String,
    pub target_language: String,
    pub chapters: Vec<BookChapter>,
    pub publication: PublicationMetadata,
}

/// Mathematical model of a [`BookSegment`].
pub struct BookSegmentModel {
    pub id: Seq<char>,
    pub source: Seq<char>,
    pub translation: Seq<char>,
    pub status: SegmentStatus,
    pub qa_note: Option<Seq<char>>,
    pub terms: Seq<Seq<char>>,
}

/// Mathematical model of a [`BookChapter`].
pub struct BookChapterModel {
    pub id: Seq<char>,
    pub title: Seq<char>,
    pub segments: Seq<BookSegmentModel>,
}

/// Mathematical model of a [`BookProject`].
pub struct BookProjectModel {
    pub id: Seq<char>,
    pub source_path: Seq<char>,
    pub title: Seq<char>,
    pub format: BookFormat,
    pub source_language: Seq<char>,
    pub target_language: Seq<char>,
    pub chapters: Seq<BookChapterModel>,
    pub publication: PublicationModel,
}

impl View for BookSegment {
    type V = BookSegmentModel;

    open spec fn view(&self) -> BookSegmentModel {
        BookSegmentModel {
            id: self.id@,
            source: self.source@,
            translation: self.translation@,
            status: self.status,
            qa_note: match self.qa_note {
                Some(n) => Some(n@),
                None => None,
            },
            terms: string_texts(self.terms@),
        }
    }
}

/// The models of a sequence of segments.
pub open spec fn book_segment_models(s: Seq<BookSegment>) -> Seq<BookSegmentModel> {
    s.map_values(|x: BookSegment| x@)
}

impl View for BookChapter {
    type V = BookChapterModel;

    open spec fn view(&self) -> BookChapterModel {
        BookChapterModel {
            id: self.id@,
            title: self.title@,
            segments: book_segment_models(self.segments@),
        }
    }
}

/// The models of a sequence of chapters.
pub open spec fn chapter_models(s: Seq<BookChapter>) -> Seq<BookChapterModel> {
    s.map_values(|x: BookChapter| x@)
}

impl View for BookProject {
    type V = BookProjectModel;

    open spec fn view(&self) -> BookProjectModel {
        BookProjectModel {
            id: self.id@,
            source_path: self.source_path@,
            title: self.title@,
            format: self.format,
            source_language: self.source_language@,
            target_language: self.target_language@,
            chapters: chapter_models(self.chapters@),
            publication: self.publication@,
        }
    }
}

/// Why a book could not be read.
#[derive(Clone, Debug, PartialEq, Eq)]
pub enum BookError {
    UnsupportedFormat(String),
    InvalidData(String),
    Io(String),
}

/// Mathematical model of a [`BookError`].
pub enum BookFault {
    UnsupportedFormat(Seq<char>),
    InvalidData(Seq<char>),
    Io(Seq<char>),
}

impl View for BookError {
    type V = BookFault;

    open spec fn view(&self) -> BookFault {
        match self {
            BookError::UnsupportedFormat(v) => BookFault::UnsupportedFormat(v@),
            BookError::InvalidData(v) => BookFault::InvalidData(v@),
            BookError::Io(v) => BookFault::Io(v@),
        }
    }
}

/// The message a book error shows.
pub open spec fn book_error_text(f: BookFault) -> Seq<char> {
    match f {
        BookFault::UnsupportedFormat(v) => "不支持的书籍格式："@ + v,
        BookFault::InvalidData(v) => v,
        BookFault::Io(v) => v,
    }
}

impl BookError {
    /// The message of the error.
    pub fn message(&self) -> (r: String)
        ensures
            r@ == book_error_text(self@),
    {
        match self {
            BookError::UnsupportedFormat(v) => {
                let mut s = String::new();
                push_str(&mut s, "不支持的书籍格式：");
                push_str(&mut s, v.as_str());
                s
            },
            BookError::InvalidData(v) => owned(v.as_str()),
            BookError::Io(v) => owned(v.as_str()),
        }
    }
}

/// The model of a book result.
pub open spec fn book_result(r: Result<BookProject, BookError>) -> Result<BookProjectModel, BookFault> {
    match r {
        Ok(p) => Ok(p@),
        Err(e) => Err(e@),
    }
}

// ---------------------------------------------------------------------------
// Paths
// ---------------------------------------------------------------------------
/// A path separator (both are accepted, as on Windows).
pub open spec fn is_separator(c: char) -> bool {
    c == '/' || c == '\\'
}

/// `s` without trailing separators.
pub open spec fn strip_separators(s: Seq<char>) -> Seq<char>
    decreases s.len(),
{
    if s.len() > 0 && is_separator(s.last()) {
        strip_separators(s.drop_last())
    } else {
        s
    }
}

/// Where the last component of `s` begins.
pub open spec fn name_start(s: Seq<char>) -> int
    decreases s.len(),
{
    if s.len() == 0 {
        0
    } else if is_separator(s.last()) {
        s.len() as int
    } else {
        name_start(s.drop_last())
    }
}

/// The last component of a path (`Path::file_name`).
pub open spec fn file_name(path: Seq<char>) -> Option<Seq<char>> {
    let p = strip_separators(path);
    let n = p.skip(name_start(p));
    if n.len() == 0 || n == ".."@ {
        None
    } else {
        Some(n)
    }
}

/// The extension of a path (`Path::extension`): what follows the last `.` of
/// its file name, unless that `.` opens the name.
pub open spec fn path_extension(path: Seq<char>) -> Option<Seq<char>> {
    match file_name(path) {
        None => None,
        Some(n) => match last_index(n, '.') {
            Some(k) => if k > 0 {
                Some(n.skip(k + 1))
            } else {
                None
            },
            None => None,
        },
    }
}

/// The file name of a path without its extension (`Path::file_stem`).
pub open spec fn path_stem(path: Seq<char>) -> Option<Seq<char>> {
    match file_name(path) {
        None => None,
        Some(n) => match last_index(n, '.') {
            Some(k) => if k > 0 {
                Some(n.take(k))
            } else {
                Some(n)
            },
            None => Some(n),
        },
    }
}

/// The title a book gets from its path.
pub open spec fn book_title(path: Seq<char>) -> Seq<char> {
    match path_stem(path) {
        Some(s) => s,
        None => "未命名书稿"@,
    }
}

/// The lower-cased extension of a path, empty when it has none.
pub open spec fn lower_extension(path: Seq<char>) -> Seq<char> {
    match path_extension(path) {
        Some(e) => lower_ascii(e),
        None => Seq::empty(),
    }
}

/// The book format of a lower-cased extension.
pub open spec fn format_of(extension: Seq<char>) -> Option<BookFormat> {
    if extension == "txt"@ {
        Some(BookFormat::Txt)
    } else if extension == "md"@ || extension == "markdown"@ {
        Some(BookFormat::Markdown)
    } else if extension == "epub"@ {
        Some(BookFormat::Epub)
    } else if extension == "docx"@ {
        Some(BookFormat::Docx)
    } else {
        None
    }
}

fn is_separator_exec(c: char) -> (r: bool)
    ensures
        r == is_separator(c),
{
    c == '/' || c == '\\'
}

proof fn lemma_name_start(s: Seq<char>)
    ensures
        0 <= name_start(s) <= s.len(),
    decreases s.len(),
{
    if s.len() > 0 && !is_separator(s.last()) {
        lemma_name_start(s.drop_last());
    }
}

/// The last component of a path.
pub(crate) fn file_name_exec(path: &str) -> (r: Option<Vec<char>>)
    ensures
        match r {
            Some(n) => file_name(path@) == Some(n@),
            None => file_name(path@) is None,
        },
{
    let v = chars_of(path);
    let mut end = v.len();
    assert(v@.take(v.len() as int) =~= v@);
    while end > 0 && is_separator_exec(v[end - 1])
        invariant
            end <= v.len(),
            v@ == path@,
            strip_separators(v@) == strip_separators(v@.take(end as int)),
        decreases end,
    {
        assert(v@.take(end as int).drop_last() =~= v@.take(end - 1));
        end = end - 1;
    }
    let ghost p = v@.take(end as int);
    assert(strip_separators(p) == p);
    let mut start = end;
    assert(p.take(end as int) =~= p);
    while start > 0 && !is_separator_exec(v[start - 1])
        invariant
            start <= end <= v.len(),
            p == v@.take(end as int),
            name_start(p) == name_start(p.take(start as int)),
        decreases start,
    {
        assert(p.take(start as int).drop_last() =~= p.take(start - 1));
        start = start - 1;
    }
    proof {
        if start > 0 {
            assert(p.take(start as int).last() == v@[start - 1]);
        }
        lemma_name_start(p);
    }
    assert(name_start(p) == start);
    let n = slice_chars(v.as_slice(), start, end);
    assert(n@ =~= p.skip(start as int));
    if n.len() == 0 || (n.len() == 2 && n[0] == '.' && n[1] == '.') {
        proof {
            reveal_strlit("..");
            if n.len() != 0 {
                assert(n@ =~= ".."@);
            }
        }
        None
    } else {
        proof {
            reveal_strlit("..");
            assert(".."@.len() == 2);
            assert(".."@[0] == '.' && ".."@[1] == '.');
            if n@ == ".."@ {
                assert(n@[0] == '.' && n@[1] == '.');
            }
            assert(n@ != ".."@);
            assert(file_name(path@) == Some(n@));
        }
        Some(n)
    }
}

/// The extension of a path.
pub(crate) fn extension_exec(path: &str) -> (r: Option<Vec<char>>)
    ensures
        match r {
            Some(e) => path_extension(path@) == Some(e@),
            None => path_extension(path@) is None,
        },
{
    match file_name_exec(path) {
        None => None,
        Some(n) => {
            proof {
                lemma_last_index(n@, '.');
            }
            match last_index_of(&n, '.') {
                Some(k) => if k > 0 {
                    assert(k < n.len());
                    let e = slice_chars(n.as_slice(), k + 1, n.len());
                    assert(e@ =~= n@.skip(k + 1));
                    Some(e)
                } else {
                    None
                },
                None => None,
            }
        },
    }
}

/// The title of a book read from `path`.
fn book_title_exec(path: &str) -> (r: String)
    ensures
        r@ == book_title(path@),
{
    match file_name_exec(path) {
        None => owned("未命名书稿"),
        Some(n) => {
            proof {
                lemma_last_index(n@, '.');
            }
            match last_index_of(&n, '.') {
                Some(k) => if k > 0 {
                    let s = slice_chars(n.as_slice(), 0, k);
                    assert(s@ =~= n@.take(k as int));
                    string_from(s.as_slice())
                } else {
                    string_from(n.as_slice())
                },
                None => string_from(n.as_slice()),
            }
        },
    }
}

// ---------------------------------------------------------------------------
// Text decoding
// ---------------------------------------------------------------------------
/// The UTF-16 decoding of code units, or nothing when a surrogate is unpaired.
pub open spec fn utf16_decode(units: Seq<u16>) -> Option<Seq<char>>
    decreases units.len(),
{
    if units.len() == 0 {
        Some(Seq::empty())
    } else if units[0] < 0xD800 || units[0] > 0xDFFF {
        match utf16_decode(units.drop_first()) {
            Some(t) => Some(seq![units[0] as char] + t),
            None => None,
        }
    } else if units[0] <= 0xDBFF && units.len() >= 2 && 0xDC00 <= units[1] <= 0xDFFF {
        match utf16_decode(units.skip(2)) {
            Some(t) => Some(
                seq![(0x10000 + (units[0] - 0xD800) * 0x400 + (units[1] - 0xDC00)) as char] + t,
            ),
            None => None,
        }
    } else {
        None
    }
}

/// The message of the error that `String::from_utf16` reports for `units`.
pub uninterp spec fn utf16_error_message(units: Seq<u16>) -> Seq<char>;

/// Decodes UTF-16 code units (`String::from_utf16`). Claimed: it succeeds with the
/// decoded text exactly when every surrogate is paired, and otherwise reports the
/// error's message.
#[verifier::external_body]
fn utf16_text(units: &[u16]) -> (r: Result<String, String>)
    ensures
        match r {
            Ok(s) => utf16_decode(units@) == Some(s@),
            Err(m) => utf16_decode(units@) is None && m@ == utf16_error_message(units@),
        },
{
    String::from_utf16(units).map_err(|e| e.to_string())
}

/// What `encoding_rs::GBK.decode(bytes)` yields, or nothing when it reports errors.
pub uninterp spec fn gbk_text(bytes: Seq<u8>) -> Option<Seq<char>>;

/// Decodes bytes as GBK (`encoding_rs::GBK.decode`). Claimed: the text is
/// `gbk_text(bytes)`, absent exactly when the decoder reports malformed input.
#[verifier::external_body]
fn gbk_decode(bytes: &[u8]) -> (r: Option<String>)
    ensures
        match r {
            Some(s) => gbk_text(bytes@) == Some(s@),
            None => gbk_text(bytes@) is None,
        },
{
    let (decoded, _, had_errors) = GBK.decode(bytes);
    if had_errors {
        None
    } else {
        Some(decoded.into_owned())
    }
}

/// Little-endian 16-bit units of bytes; a trailing odd byte is dropped.
pub open spec fn le_units(bytes: Seq<u8>) -> Seq<u16> {
    Seq::new(bytes.len() / 2, |i: int| (bytes[2 * i] + 256 * bytes[2 * i + 1]) as u16)
}

/// Whether `bytes` opens with `prefix`.
pub open spec fn has_prefix(bytes: Seq<u8>, prefix: Seq<u8>) -> bool {
    prefix.len() <= bytes.len() && bytes.take(prefix.len() as int) == prefix
}

/// The text of a book file: UTF-8 after a UTF-8 byte-order mark, UTF-16LE after
/// its mark, else UTF-8, else GBK; the error is the message of an invalid-data error.
pub open spec fn book_text(bytes: Seq<u8>) -> Result<Seq<char>, Seq<char>> {
    if has_prefix(bytes, seq![0xEFu8, 0xBBu8, 0xBFu8]) {
        let rest = bytes.skip(3);
        if valid_utf8(rest) {
            Ok(decode_utf8(rest))
        } else {
            Err("UTF-8 文本无效："@ + utf8_error_message(rest))
        }
    } else if has_prefix(bytes, seq![0xFFu8, 0xFEu8]) {
        let units = le_units(bytes.skip(2));
        match utf16_decode(units) {
            Some(t) => Ok(t),
            None => Err("UTF-16 文本无效："@ + utf16_error_message(units)),
        }
    } else if valid_utf8(bytes) {
        Ok(decode_utf8(bytes))
    } else {
        match gbk_text(bytes) {
            Some(t) => Ok(t),
            None => Err("无法识别书籍文本编码"@),
        }
    }
}

fn bytes_from(bytes: &[u8], start: usize) -> (r: Vec<u8>)
    requires
        start <= bytes.len(),
    ensures
        r@ == bytes@.skip(start as int),
{
    let mut r: Vec<u8> = Vec::new();
    let mut i = start;
    while i < bytes.len()
        invariant
            start <= i <= bytes.len(),
            r@ == bytes@.subrange(start as int, i as int),
        decreases bytes.len() - i,
    {
        r.push(bytes[i]);
        i = i + 1;
        assert(r@ =~= bytes@.subrange(start as int, i as int));
    }
    r
}

fn invalid(prefix: &str, detail: &str) -> (e: BookError)
    ensures
        e@ == BookFault::InvalidData(prefix@ + detail@),
{
    let mut s = String::new();
    push_str(&mut s, prefix);
    push_str(&mut s, detail);
    BookError::InvalidData(s)
}

/// Decodes the bytes of a plain-text book.
pub fn decode_text(bytes: &[u8]) -> (r: Result<String, BookError>)
    ensures
        match r {
            Ok(s) => book_text(bytes@) == Ok::<Seq<char>, Seq<char>>(s@),
            Err(e) => book_text(bytes@) matches Err(m) && e@ == BookFault::InvalidData(m),
        },
{
    if bytes.len() >= 3 && bytes[0] == 0xEF && bytes[1] == 0xBB && bytes[2] == 0xBF {
        assert(bytes@.take(3) =~= seq![0xEFu8, 0xBBu8, 0xBFu8]);
        let rest = bytes_from(bytes, 3);
        return match utf8_text(rest.as_slice()) {
            Ok(s) => Ok(s),
            Err(m) => Err(invalid("UTF-8 文本无效：", m.as_str())),
        };
    }
    proof {
        if has_prefix(bytes@, seq![0xEFu8, 0xBBu8, 0xBFu8]) {
            assert(bytes@.take(3)[0] == 0xEF && bytes@.take(3)[1] == 0xBB && bytes@.take(3)[2] == 0xBF);
        }
    }
    if bytes.len() >= 2 && bytes[0] == 0xFF && bytes[1] == 0xFE {
        assert(bytes@.take(2) =~= seq![0xFFu8, 0xFEu8]);
        let rest = bytes_from(bytes, 2);
        let mut units: Vec<u16> = Vec::new();
        let mut i: usize = 0;
        while i < rest.len() / 2
            invariant
                i <= rest.len() / 2,
                units@ == le_units(rest@).take(i as int),
            decreases rest.len() / 2 - i,
        {
            let unit = (rest[2 * i] as u16) + 256 * (rest[2 * i + 1] as u16);
            units.push(unit);
            i = i + 1;
            assert(units@ =~= le_units(rest@).take(i as int));
        }
        assert(units@ =~= le_units(rest@));
        return match utf16_text(units.as_slice()) {
            Ok(s) => Ok(s),
            Err(m) => Err(invalid("UTF-16 文本无效：", m.as_str())),
        };
    }
    proof {
        if has_prefix(bytes@, seq![0xFFu8, 0xFEu8]) {
            assert(bytes@.take(2)[0] == 0xFF && bytes@.take(2)[1] == 0xFE);
        }
    }
    match utf8_text(bytes) {
        Ok(s) => Ok(s),
        Err(_) => match gbk_decode(bytes) {
            Some(s) => Ok(s),
            None => Err(BookError::InvalidData(owned("无法识别书籍文本编码"))),
        },
    }
}

// ---------------------------------------------------------------------------
// Identifiers
// ---------------------------------------------------------------------------
/// A short stable identifier: the first 24 hexadecimal digits of the SHA-256
/// of the value's UTF-8 bytes.
pub open spec fn stable_id(value: Seq<char>) -> Seq<char> {
    hex(sha256(encode_utf8(value))).take(24)
}

pub proof fn lemma_hex_len(bytes: Seq<u8>)
    ensures
        hex(bytes).len() == 2 * bytes.len(),
    decreases bytes.len(),
{
    if bytes.len() > 0 {
        lemma_hex_len(bytes.drop_last());
    }
}

/// The stable identifier of a value.
pub fn stable_id_of(value: &str) -> (r: String)
    ensures
        r@ == stable_id(value@),
{
    let bytes = value.as_bytes_vec();
    assert(bytes@ == encode_utf8(value@));
    let digest = sha256_digest(bytes.as_slice());
    let h = hex_text(digest.as_slice());
    proof {
        lemma_hex_len(digest@);
    }
    let v = chars_of(h.as_str());
    let t = slice_chars(v.as_slice(), 0, 24);
    assert(t@ =~= hex(digest@).take(24));
    string_from(t.as_slice())
}

/// The text a chapter's identifier is taken from.
pub open spec fn chapter_key(path: Seq<char>, index: nat, title: Seq<char>) -> Seq<char> {
    path + "\0chapter\0"@ + decimal(index) + "\0"@ + title
}

/// The text a segment's identifier is taken from.
pub open spec fn segment_key(chapter_id: Seq<char>, index: nat, source: Seq<char>) -> Seq<char> {
    chapter_id + "\0"@ + decimal(index) + "\0"@ + source
}

// ---------------------------------------------------------------------------
// Chapters
// ---------------------------------------------------------------------------
/// The title given to text that comes before any heading.
pub open spec fn body_title() -> Seq<char> {
    "正文"@
}

/// Blocks gathered into chapters: a heading `(true, title)` opens a chapter,
/// a paragraph `(false, text)` joins the last one (a body chapter is opened
/// for paragraphs before any heading).
pub open spec fn grouped(items: Seq<(bool, Seq<char>)>) -> Seq<(Seq<char>, Seq<Seq<char>>)>
    decreases items.len(),
{
    if items.len() == 0 {
        Seq::empty()
    } else {
        let prev = grouped(items.drop_last());
        let item = items.last();
        if item.0 {
            prev.push((item.1, Seq::empty()))
        } else {
            let base = if prev.len() == 0 {
                seq![(body_title(), Seq::<Seq<char>>::empty())]
            } else {
                prev
            };
            base.update(base.len() - 1, (base.last().0, base.last().1.push(item.1)))
        }
    }
}

/// The chapters that have at least one paragraph, in order.
pub open spec fn filled_chapters(chs: Seq<(Seq<char>, Seq<Seq<char>>)>) -> Seq<
    (Seq<char>, Seq<Seq<char>>),
>
    decreases chs.len(),
{
    if chs.len() == 0 {
        Seq::empty()
    } else if chs.last().1.len() > 0 {
        filled_chapters(chs.drop_last()).push(chs.last())
    } else {
        filled_chapters(chs.drop_last())
    }
}

/// A fresh untranslated segment.
pub open spec fn new_segment(id: Seq<char>, source: Seq<char>) -> BookSegmentModel {
    BookSegmentModel {
        id,
        source,
        translation: Seq::empty(),
        status: SegmentStatus::Untranslated,
        qa_note: None,
        terms: Seq::empty(),
    }
}

/// The chapter built from the `index`-th kept chapter of a book at `path`.
pub open spec fn built_chapter(path: Seq<char>, index: nat, ch: (Seq<char>, Seq<Seq<char>>)) -> BookChapterModel {
    let id = stable_id(chapter_key(path, index, ch.0));
    BookChapterModel {
        id,
        title: ch.0,
        segments: Seq::new(
            ch.1.len(),
            |j: int| new_segment(stable_id(segment_key(id, j as nat, ch.1[j])), ch.1[j]),
        ),
    }
}

/// The message of a book without body text.
pub open spec fn empty_book_message() -> Seq<char> {
    "书籍没有可导入的正文"@
}

/// The project built from the chapters read from `path`.
pub open spec fn built_project(
    path: Seq<char>,
    format: BookFormat,
    chapters: Seq<(Seq<char>, Seq<Seq<char>>)>,
) -> Result<BookProjectModel, BookFault> {
    let kept = filled_chapters(chapters);
    if kept.len() == 0 {
        Err(BookFault::InvalidData(empty_book_message()))
    } else {
        Ok(
            BookProjectModel {
                id: stable_id(path),
                source_path: path,
                title: book_title(path),
                format,
                source_language: "auto"@,
                target_language: "zh-CN"@,
                chapters: Seq::new(kept.len(), |i: int| built_chapter(path, i as nat, kept[i])),
                publication: blank_publication(),
            },
        )
    }
}

/// The model of drafted chapters.
pub open spec fn draft_models(v: Seq<(String, Vec<String>)>) -> Seq<(Seq<char>, Seq<Seq<char>>)> {
    v.map_values(|c: (String, Vec<String>)| (c.0@, string_texts(c.1@)))
}

/// The model of block items.
pub open spec fn item_models(v: Seq<(bool, String)>) -> Seq<(bool, Seq<char>)> {
    v.map_values(|c: (bool, String)| (c.0, c.1@))
}

/// A copy of a list of strings.
pub fn copy_strings(v: &Vec<String>) -> (r: Vec<String>)
    ensures
        string_texts(r@) == string_texts(v@),
{
    let mut r: Vec<String> = Vec::new();
    let mut i: usize = 0;
    while i < v.len()
        invariant
            i <= v.len(),
            string_texts(r@) == string_texts(v@.take(i as int)),
        decreases v.len() - i,
    {
        let ghost before = r@;
        let c = owned(v[i].as_str());
        r.push(c);
        proof {
            assert(v@.take(i + 1) =~= v@.take(i as int).push(v@[i as int]));
            assert(string_texts(r@) =~= string_texts(before).push(c@));
            assert(string_texts(v@.take(i + 1)) =~= string_texts(v@.take(i as int)).push(v@[i as int]@));
        }
        i = i + 1;
    }
    assert(v@.take(v.len() as int) =~= v@);
    r
}

/// Gathers blocks into chapters.
pub fn group_blocks(items: &Vec<(bool, String)>) -> (r: Vec<(String, Vec<String>)>)
    ensures
        draft_models(r@) == grouped(item_models(items@)),
{
    let ghost all = item_models(items@);
    let mut chapters: Vec<(String, Vec<String>)> = Vec::new();
    let mut i: usize = 0;
    assert(all.take(0) =~= Seq::<(bool, Seq<char>)>::empty());
    while i < items.len()
        invariant
            i <= items.len(),
            all == item_models(items@),
            draft_models(chapters@) == grouped(all.take(i as int)),
        decreases items.len() - i,
    {
        let heading = items[i].0;
        let text = owned(items[i].1.as_str());
        proof {
            assert(all[i as int] == (heading, text@));
            assert(all.take(i + 1).drop_last() =~= all.take(i as int));
            assert(all.take(i + 1).last() == all[i as int]);
        }
        let ghost prev = draft_models(chapters@);
        if heading {
            let empty: Vec<String> = Vec::new();
            assert(string_texts(empty@) =~= Seq::<Seq<char>>::empty());
            chapters.push((text, empty));
            assert(draft_models(chapters@) =~= prev.push((text@, Seq::<Seq<char>>::empty())));
        } else {
            if chapters.len() == 0 {
                let empty: Vec<String> = Vec::new();
                assert(string_texts(empty@) =~= Seq::<Seq<char>>::empty());
                let body = owned("正文");
                chapters.push((body, empty));
                assert(draft_models(chapters@) =~= seq![(body_title(), Seq::<Seq<char>>::empty())]);
            }
            let ghost base = draft_models(chapters@);
            let (title, mut paragraphs) = chapters.pop().unwrap();
            let ghost old_paragraphs = paragraphs@;
            paragraphs.push(text);
            assert(string_texts(paragraphs@) =~= string_texts(old_paragraphs).push(text@));
            chapters.push((title, paragraphs));
            assert(draft_models(chapters@) =~= base.update(
                base.len() - 1,
                (base.last().0, base.last().1.push(text@)),
            ));
        }
        i = i + 1;
    }
    assert(all.take(items.len() as int) =~= all);
    chapters
}

fn chapter_key_text(path: &str, index: usize, title: &str) -> (r: String)
    ensures
        r@ == chapter_key(path@, index as nat, title@),
{
    let mut s = owned(path);
    push_str(&mut s, "\0chapter\0");
    push_decimal(&mut s, index as u64);
    push_str(&mut s, "\0");
    push_str(&mut s, title);
    s
}

fn segment_key_text(chapter_id: &str, index: usize, source: &str) -> (r: String)
    ensures
        r@ == segment_key(chapter_id@, index as nat, source@),
{
    let mut s = owned(chapter_id);
    push_str(&mut s, "\0");
    push_decimal(&mut s, index as u64);
    push_str(&mut s, "\0");
    push_str(&mut s, source);
    s
}

fn build_chapter(path: &str, index: usize, title: String, paragraphs: Vec<String>) -> (r: BookChapter)
    ensures
        r@ == built_chapter(path@, index as nat, (title@, string_texts(paragraphs@))),
{
    let key = chapter_key_text(path, index, title.as_str());
    let id = stable_id_of(key.as_str());
    let ghost paras = string_texts(paragraphs@);
    let mut segments: Vec<BookSegment> = Vec::new();
    let mut j: usize = 0;
    while j < paragraphs.len()
        invariant
            j <= paragraphs.len(),
            paras == string_texts(paragraphs@),
            id@ == stable_id(chapter_key(path@, index as nat, title@)),
            book_segment_models(segments@) == Seq::new(
                j as nat,
                |m: int| new_segment(stable_id(segment_key(id@, m as nat, paras[m])), paras[m]),
            ),
        decreases paragraphs.len() - j,
    {
        let source = &paragraphs[j];
        let skey = segment_key_text(id.as_str(), j, source.as_str());
        let sid = stable_id_of(skey.as_str());
        let segment = BookSegment {
            id: sid,
            source: owned(source.as_str()),
            translation: String::new(),
            status: SegmentStatus::Untranslated,
            qa_note: None,
            terms: Vec::new(),
        };
        let ghost before = segments@;
        segments.push(segment);
        proof {
            assert(string_texts(segment.terms@) =~= Seq::<Seq<char>>::empty());
            assert(paras[j as int] == paragraphs@[j as int]@);
            assert(book_segment_models(segments@) =~= book_segment_models(before).push(segment@));
        }
        j = j + 1;
        assert(book_segment_models(segments@) =~= Seq::new(
            j as nat,
            |m: int| new_segment(stable_id(segment_key(id@, m as nat, paras[m])), paras[m]),
        ));
    }
    BookChapter { id, title, segments }
}

/// Builds a project from the chapters read from `path`; chapters without
/// paragraphs are dropped, and a book without any is refused.
pub fn build_project(path: &str, format: BookFormat, chapters: &Vec<(String, Vec<String>)>) -> (r: Result<
    BookProject,
    BookError,
>)
    ensures
        book_result(r) == built_project(path@, format, draft_models(chapters@)),
{
    let ghost all = draft_models(chapters@);
    assert(all.take(0) =~= Seq::<(Seq<char>, Seq<Seq<char>>)>::empty());
    let mut built: Vec<BookChapter> = Vec::new();
    let mut i: usize = 0;
    while i < chapters.len()
        invariant
            i <= chapters.len(),
            all == draft_models(chapters@),
            built.len() == filled_chapters(all.take(i as int)).len(),
            built.len() <= i,
            chapter_models(built@) == Seq::new(
                built.len() as nat,
                |m: int| built_chapter(path@, m as nat, filled_chapters(all.take(i as int))[m]),
            ),
        decreases chapters.len() - i,
    {
        let ghost item = all[i as int];
        let ghost kept_before = filled_chapters(all.take(i as int));
        proof {
            assert(all.take(i + 1).drop_last() =~= all.take(i as int));
            assert(all.take(i + 1).last() == all[i as int]);
        }
        if chapters[i].1.len() > 0 {
            let index = built.len();
            let title = owned(chapters[i].0.as_str());
            let paragraphs = copy_strings(&chapters[i].1);
            let chapter = build_chapter(path, index, title, paragraphs);
            let ghost before = built@;
            built.push(chapter);
            proof {
                let kept = filled_chapters(all.take(i + 1));
                assert(kept == kept_before.push(item));
                assert(chapter_models(built@) =~= chapter_models(before).push(chapter@));
                assert(chapter_models(built@) =~= Seq::new(
                    built.len() as nat,
                    |m: int| built_chapter(path@, m as nat, kept[m]),
                ));
            }
        }
        i = i + 1;
    }
    assert(all.take(chapters.len() as int) =~= all);
    if built.len() == 0 {
        return Err(BookError::InvalidData(owned("书籍没有可导入的正文")));
    }
    let id = stable_id_of(path);
    let title = book_title_exec(path);
    let project = BookProject {
        id,
        source_path: owned(path),
        title,
        format,
        source_language: owned("auto"),
        target_language: owned("zh-CN"),
        chapters: built,
        publication: PublicationMetadata::default(),
    };
    proof {
        let expected = built_project(path@, format, all);
        assert(expected is Ok);
        assert(project@.chapters =~= expected->Ok_0.chapters);
    }
    Ok(project)
}

} // verus!
