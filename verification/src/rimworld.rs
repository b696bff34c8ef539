use crate::content::{
    empty_context, join, join_path, no_context, opt_text, segment_models, segments_result,
    source_result, ContentCategory, ContentError, ContentSource, ContentSourceAdapter, Fault,
    FileRead, FileState,
    OutputCapability, Segment, SegmentKind, SegmentModel, SourceModel,
};
use crate::order::{sort_by_key, sorted_by_key, text_before, text_key, SortKey, stably_sorted};
use crate::text::{all_space, chars_of, is_blank, owned, push_str, str_equal};
use crate::xml::{read_xml_events, tokens_of, utf8_error_message, utf8_text, xml_tokens, XmlEvent, XmlToken};
use vstd::prelude::*;
use vstd::utf8::{decode_utf8, valid_utf8};

verus! {

/// One `<key>value</key>` entry of a RimWorld language or metadata file.
#[derive(Clone, Debug, PartialEq, Eq)]
pub struct LanguageEntry {
    pub key: String,
    pub value: String,
}

/// Model of the reading state of a language file.
pub struct EntryScan {
    pub root: Option<Seq<char>>,
    pub current: Option<(Seq<char>, Seq<char>)>,
    pub entries: Seq<(Seq<char>, Seq<char>)>,
}

pub open spec fn invalid(path: Seq<char>, message: Seq<char>) -> Fault {
    Fault::InvalidData(path, message)
}

/// An element name as text, or the error for a name that is not UTF-8.
pub open spec fn name_text(path: Seq<char>, name: Seq<u8>) -> Result<Seq<char>, Fault> {
    if valid_utf8(name) {
        Ok(decode_utf8(name))
    } else {
        Err(invalid(path, utf8_error_message(name)))
    }
}

pub open spec fn root_message(expected: Seq<char>) -> Seq<char> {
    "expected <"@ + expected + "> root element"@
}

pub open spec fn nested_message() -> Seq<char> {
    "nested localization values are not supported"@
}

/// One reading step over a token other than the end of the document.
pub open spec fn entry_step(path: Seq<char>, expected: Seq<char>, s: EntryScan, t: XmlToken) -> Result<
    EntryScan,
    Fault,
> {
    match t {
        XmlToken::Start { name, .. } => match name_text(path, name) {
            Err(f) => Err(f),
            Ok(n) => if s.root is None {
                if n != expected {
                    Err(invalid(path, root_message(expected)))
                } else {
                    Ok(EntryScan { root: Some(n), ..s })
                }
            } else if s.current is None {
                Ok(EntryScan { current: Some((n, Seq::empty())), ..s })
            } else {
                Err(invalid(path, nested_message()))
            },
        },
        XmlToken::Empty { name, .. } => if s.root is None {
            Err(invalid(path, root_message(expected)))
        } else if s.current is Some {
            Err(invalid(path, nested_message()))
        } else {
            match name_text(path, name) {
                Err(f) => Err(f),
                Ok(_) => Ok(s),
            }
        },
        XmlToken::Text { content } => match content {
            Err(m) => Err(invalid(path, m)),
            Ok(v) => match s.current {
                Some((k, w)) => Ok(EntryScan { current: Some((k, w + v)), ..s }),
                None => if !all_space(v) {
                    Err(invalid(path, "unexpected text node"@))
                } else {
                    Ok(s)
                },
            },
        },
        XmlToken::End { name } => match name_text(path, name) {
            Err(f) => Err(f),
            Ok(n) => match s.current {
                Some((k, v)) => if n != k {
                    Err(invalid(path, "mismatched localization element"@))
                } else if !all_space(v) {
                    Ok(EntryScan { current: None, entries: s.entries.push((k, v)), ..s })
                } else {
                    Ok(EntryScan { current: None, ..s })
                },
                None => if s.root == Some(n) {
                    Ok(EntryScan { root: None, ..s })
                } else {
                    Err(invalid(path, "unexpected closing element"@))
                },
            },
        },
        XmlToken::CData => Err(invalid(path, "CDATA localization values are not supported"@)),
        XmlToken::Error { message } => Err(invalid(path, message)),
        _ => Ok(s),
    }
}

/// What the end of the document gives.
pub open spec fn entries_at_end(path: Seq<char>, s: EntryScan) -> Result<
    Seq<(Seq<char>, Seq<char>)>,
    Fault,
> {
    if s.root is Some || s.current is Some {
        Err(invalid(path, "unexpected end of XML document"@))
    } else {
        Ok(s.entries)
    }
}

/// The entries that reading `tokens` from position `i` in state `s` gives.
pub open spec fn scan_entries(
    path: Seq<char>,
    expected: Seq<char>,
    tokens: Seq<XmlToken>,
    i: int,
    s: EntryScan,
) -> Result<Seq<(Seq<char>, Seq<char>)>, Fault>
    decreases tokens.len() - i,
{
    if i < 0 || i >= tokens.len() || tokens[i] is Eof {
        entries_at_end(path, s)
    } else {
        match entry_step(path, expected, s, tokens[i]) {
            Err(f) => Err(f),
            Ok(s2) => scan_entries(path, expected, tokens, i + 1, s2),
        }
    }
}

/// The non-blank `<key>value</key>` entries under the root element `expected`
/// of the XML document `xml` read from `path`, in document order, or the first
/// error in it.
pub open spec fn language_entries(path: Seq<char>, xml: Seq<char>, expected: Seq<char>) -> Result<
    Seq<(Seq<char>, Seq<char>)>,
    Fault,
> {
    scan_entries(
        path,
        expected,
        xml_tokens(xml, true),
        0,
        EntryScan { root: None, current: None, entries: Seq::empty() },
    )
}

pub open spec fn pending_model(c: Option<(String, String)>) -> Option<(Seq<char>, Seq<char>)> {
    match c {
        Some((k, v)) => Some((k@, v@)),
        None => None,
    }
}

pub open spec fn entry_model(e: LanguageEntry) -> (Seq<char>, Seq<char>) {
    (e.key@, e.value@)
}

pub open spec fn entry_models(s: Seq<LanguageEntry>) -> Seq<(Seq<char>, Seq<char>)> {
    s.map_values(|e: LanguageEntry| entry_model(e))
}

pub open spec fn result_entries(r: Result<Vec<LanguageEntry>, ContentError>) -> Result<
    Seq<(Seq<char>, Seq<char>)>,
    Fault,
> {
    match r {
        Ok(v) => Ok(entry_models(v@)),
        Err(e) => Err(e@),
    }
}

fn invalid_data(path: &str, message: &str) -> (e: ContentError)
    ensures
        e@ == invalid(path@, message@),
{
    ContentError::InvalidData { path: owned(path), message: owned(message) }
}

/// Decodes an element name.
pub fn decode_name(bytes: &[u8], path: &str) -> (r: Result<String, ContentError>)
    ensures
        match (r, name_text(path@, bytes@)) {
            (Ok(s), Ok(t)) => s@ == t,
            (Err(e), Err(f)) => e@ == f,
            _ => false,
        },
{
    match utf8_text(bytes) {
        Ok(s) => Ok(s),
        Err(m) => Err(ContentError::InvalidData { path: owned(path), message: m }),
    }
}

fn root_error(path: &str, expected: &str) -> (e: ContentError)
    ensures
        e@ == invalid(path@, root_message(expected@)),
{
    let mut m = String::new();
    push_str(&mut m, "expected <");
    push_str(&mut m, expected);
    push_str(&mut m, "> root element");
    proof {
        reveal_strlit("expected <");
        reveal_strlit("> root element");
    }
    ContentError::InvalidData { path: owned(path), message: m }
}

/// Reads the localisation entries of an XML document whose root element must be
/// `expected_root`.
pub fn read_language_entries(path: &str, xml: &str, expected_root: &str) -> (r: Result<
    Vec<LanguageEntry>,
    ContentError,
>)
    ensures
        result_entries(r) == language_entries(path@, xml@, expected_root@),
{
    let events = read_xml_events(xml, true);
    let ghost tokens = tokens_of(events@);
    let ghost init = EntryScan { root: None, current: None, entries: Seq::empty() };
    let mut root: Option<String> = None;
    let mut current: Option<(String, String)> = None;
    let mut entries: Vec<LanguageEntry> = Vec::new();
    let mut i: usize = 0;
    assert(entry_models(entries@) =~= Seq::<(Seq<char>, Seq<char>)>::empty());
    proof {
        reveal_strlit("nested localization values are not supported");
        reveal_strlit("unexpected text node");
        reveal_strlit("mismatched localization element");
        reveal_strlit("unexpected closing element");
        reveal_strlit("CDATA localization values are not supported");
        reveal_strlit("unexpected end of XML document");
    }
    while i < events.len()
        invariant
            tokens == tokens_of(events@),
            tokens == xml_tokens(xml@, true),
            init == (EntryScan { root: None, current: None, entries: Seq::empty() }),
            i <= events.len(),
            forall|j: int| 0 <= j < i ==> !(#[trigger] tokens[j] is Eof),
            scan_entries(path@, expected_root@, tokens, 0, init) == scan_entries(
                path@,
                expected_root@,
                tokens,
                i as int,
                EntryScan {
                    root: opt_text(root),
                    current: pending_model(current),
                    entries: entry_models(entries@),
                },
            ),
        decreases events.len() - i,
    {
        let ghost s = EntryScan {
            root: opt_text(root),
            current: pending_model(current),
            entries: entry_models(entries@),
        };
        assert(tokens[i as int] == events@[i as int]@);
        match &events[i] {
            XmlEvent::Eof => {
                return finish_entries(path, &root, &current, entries);
            },
            XmlEvent::Start(name, _) => {
                let n = match decode_name(name.as_slice(), path) {
                    Ok(n) => n,
                    Err(e) => {
                        return Err(e);
                    },
                };
                if root.is_none() {
                    if !str_equal(n.as_str(), expected_root) {
                        return Err(root_error(path, expected_root));
                    }
                    root = Some(n);
                } else if current.is_none() {
                    current = Some((n, String::new()));
                } else {
                    return Err(invalid_data(path, "nested localization values are not supported"));
                }
            },
            XmlEvent::Empty(name, _) => {
                if root.is_none() {
                    return Err(root_error(path, expected_root));
                }
                if current.is_some() {
                    return Err(invalid_data(path, "nested localization values are not supported"));
                }
                if let Err(e) = decode_name(name.as_slice(), path) {
                    return Err(e);
                }
            },
            XmlEvent::Text(content) => {
                match content {
                    Err(m) => {
                        return Err(invalid_data(path, m.as_str()));
                    },
                    Ok(value) => {
                        match current.take() {
                            Some((k, mut v)) => {
                                push_str(&mut v, value.as_str());
                                current = Some((k, v));
                            },
                            None => {
                                if !is_blank(value.as_str()) {
                                    return Err(invalid_data(path, "unexpected text node"));
                                }
                                current = None;
                            },
                        }
                    },
                }
            },
            XmlEvent::End(name) => {
                let n = match decode_name(name.as_slice(), path) {
                    Ok(n) => n,
                    Err(e) => {
                        return Err(e);
                    },
                };
                match current.take() {
                    Some((k, v)) => {
                        if !str_equal(n.as_str(), k.as_str()) {
                            return Err(invalid_data(path, "mismatched localization element"));
                        }
                        if !is_blank(v.as_str()) {
                            entries.push(LanguageEntry { key: k, value: v });
                            assert(entry_models(entries@) =~= s.entries.push((k@, v@)));
                        }
                        current = None;
                    },
                    None => {
                        let closes_root = match &root {
                            Some(r) => str_equal(r.as_str(), n.as_str()),
                            None => false,
                        };
                        if closes_root {
                            root = None;
                        } else {
                            return Err(invalid_data(path, "unexpected closing element"));
                        }
                    },
                }
            },
            XmlEvent::CData => {
                return Err(invalid_data(path, "CDATA localization values are not supported"));
            },
            XmlEvent::Error(message) => {
                return Err(invalid_data(path, message.as_str()));
            },
            XmlEvent::Other => {},
        }
        i = i + 1;
    }
    finish_entries(path, &root, &current, entries)
}

fn finish_entries(
    path: &str,
    root: &Option<String>,
    current: &Option<(String, String)>,
    entries: Vec<LanguageEntry>,
) -> (r: Result<Vec<LanguageEntry>, ContentError>)
    ensures
        result_entries(r) == entries_at_end(
            path@,
            EntryScan {
                root: opt_text(*root),
                current: pending_model(*current),
                entries: entry_models(entries@),
            },
        ),
{
    if root.is_some() || current.is_some() {
        proof {
            reveal_strlit("unexpected end of XML document");
        }
        return Err(invalid_data(path, "unexpected end of XML document"));
    }
    Ok(entries)
}


/// Where RimWorld mods keep their English source strings.
pub open spec fn english_root(root: Seq<char>) -> Seq<char> {
    join_path(root, "Languages/English"@)
}

/// ASCII lower-case code of a character (`char::to_ascii_lowercase`).
pub open spec fn lower_code(c: char) -> u32 {
    if 65 <= (c as u32) <= 90 {
        ((c as u32) + 32) as u32
    } else {
        c as u32
    }
}

/// `str::eq_ignore_ascii_case`.
pub open spec fn eq_ignore_ascii_case(a: Seq<char>, b: Seq<char>) -> bool {
    a.len() == b.len() && forall|i: int| 0 <= i < a.len() ==> lower_code(#[trigger] a[i]) == lower_code(b[i])
}

fn lower_code_exec(c: char) -> (r: u32)
    ensures
        r == lower_code(c),
{
    let u = c as u32;
    if 65 <= u && u <= 90 {
        u + 32
    } else {
        u
    }
}

/// Executable `str::eq_ignore_ascii_case`.
pub fn equal_ignoring_ascii_case(a: &str, b: &str) -> (r: bool)
    ensures
        r == eq_ignore_ascii_case(a@, b@),
{
    let x = chars_of(a);
    let y = chars_of(b);
    if x.len() != y.len() {
        return false;
    }
    let mut i: usize = 0;
    while i < x.len()
        invariant
            x@ == a@,
            y@ == b@,
            x.len() == y.len(),
            i <= x.len(),
            forall|j: int| 0 <= j < i ==> lower_code(#[trigger] x@[j]) == lower_code(y@[j]),
        decreases x.len() - i,
    {
        if lower_code_exec(x[i]) != lower_code_exec(y[i]) {
            return false;
        }
        i = i + 1;
    }
    true
}

/// Index of the first entry whose key matches, from position `i` on.
pub open spec fn first_key(es: Seq<(Seq<char>, Seq<char>)>, key: Seq<char>, ignore_case: bool, i: int) -> Option<
    int,
>
    decreases es.len() - i,
{
    if i < 0 || i >= es.len() {
        None
    } else if (ignore_case && eq_ignore_ascii_case(es[i].0, key)) || (!ignore_case && es[i].0
        == key) {
        Some(i)
    } else {
        first_key(es, key, ignore_case, i + 1)
    }
}

pub open spec fn package_message() -> Seq<char> {
    "ModMetaData must contain a non-empty packageId"@
}

/// The source that a mod's `About/About.xml` describes.
pub open spec fn rimworld_source(root: Seq<char>, about: FileState) -> Result<SourceModel, Fault> {
    let path = join_path(root, "About/About.xml"@);
    match about {
        FileState::Missing => Err(Fault::Unsupported),
        FileState::Failed(m) => Err(Fault::Io(path, m)),
        FileState::Text(x) => match language_entries(path, x, "ModMetaData"@) {
            Err(f) => Err(f),
            Ok(es) => match first_key(es, "packageId"@, true, 0) {
                None => Err(invalid(path, package_message())),
                Some(i) => if all_space(es[i].1) {
                    Err(invalid(path, package_message()))
                } else {
                    Ok(
                        SourceModel {
                            root,
                            format_id: "game.rimworld.mod"@,
                            display_name: match first_key(es, "name"@, false, 0) {
                                Some(j) => if all_space(es[j].1) {
                                    es[i].1
                                } else {
                                    es[j].1
                                },
                                None => es[i].1,
                            },
                            source_id: es[i].1,
                        },
                    )
                },
            },
        },
    }
}

fn find_key(entries: &Vec<LanguageEntry>, key: &str, ignore_case: bool) -> (r: Option<usize>)
    ensures
        match r {
            Some(i) => first_key(entry_models(entries@), key@, ignore_case, 0) == Some(i as int),
            None => first_key(entry_models(entries@), key@, ignore_case, 0) is None,
        },
        r matches Some(i) ==> i < entries.len(),
{
    let ghost es = entry_models(entries@);
    let mut i: usize = 0;
    while i < entries.len()
        invariant
            es == entry_models(entries@),
            i <= entries.len(),
            first_key(es, key@, ignore_case, 0) == first_key(es, key@, ignore_case, i as int),
        decreases entries.len() - i,
    {
        let hit = if ignore_case {
            equal_ignoring_ascii_case(entries[i].key.as_str(), key)
        } else {
            str_equal(entries[i].key.as_str(), key)
        };
        if hit {
            return Some(i);
        }
        i = i + 1;
    }
    None
}

/// Reads RimWorld mods: the English `Keyed` and `DefInjected` language files.
pub struct RimWorldModContentAdapter;

/// Writes translations as a separate RimWorld language pack.
pub struct RimWorldLanguagePackOutputAdapter;

/// The format identifier of RimWorld mods.
pub fn rimworld_format_id() -> (r: &'static str)
    ensures
        r@ == "game.rimworld.mod"@,
{
    "game.rimworld.mod"
}

/// A language file under `Languages/English` of a mod.
pub struct LanguageFile {
    /// `keyed` or `definjected`.
    pub category: String,
    /// Path below `Languages/English`, with `/` between components.
    pub relative_path: String,
    /// The file's text, or the message of the error that reading it gave.
    pub content: Result<String, String>,
}

impl SortKey for LanguageFile {
    open spec fn sort_key(&self) -> Seq<int> {
        text_key(self.relative_path@, true)
    }

    fn goes_before(&self, other: &Self) -> (r: bool) {
        text_before(self.relative_path.as_str(), other.relative_path.as_str(), true)
    }
}

/// The segment of one entry of a language file.
pub open spec fn rimworld_segment(
    root: Seq<char>,
    file: LanguageFile,
    entry: (Seq<char>, Seq<char>),
) -> SegmentModel {
    SegmentModel {
        id: "rimworld:"@ + file.category@ + ":"@ + file.relative_path@ + ":"@ + entry.0,
        source: entry.1,
        source_file: join_path(english_root(root), file.relative_path@),
        location: entry.0,
        kind: SegmentKind::LocalizedKey,
        context: empty_context(),
    }
}

/// The segments of the files `files[i..]`, in order, or the first error.
pub open spec fn rimworld_file_segments(root: Seq<char>, files: Seq<LanguageFile>, i: int) -> Result<
    Seq<SegmentModel>,
    Fault,
>
    decreases files.len() - i,
{
    if i < 0 || i >= files.len() {
        Ok(Seq::empty())
    } else {
        let path = join_path(english_root(root), files[i].relative_path@);
        match files[i].content {
            Err(m) => Err(Fault::Io(path, m@)),
            Ok(x) => match language_entries(path, x@, "LanguageData"@) {
                Err(f) => Err(f),
                Ok(es) => match rimworld_file_segments(root, files, i + 1) {
                    Err(f) => Err(f),
                    Ok(rest) => Ok(
                        es.map_values(
                            |e: (Seq<char>, Seq<char>)| rimworld_segment(root, files[i], e),
                        ) + rest,
                    ),
                },
            },
        }
    }
}

/// `sorted` holds the files of `files` in path order, files with the same
/// path in their order in `files`.
pub open spec fn path_ordered(files: Seq<LanguageFile>, sorted: Seq<LanguageFile>) -> bool {
    stably_sorted(files, sorted)
}

/// What extracting a mod at `root` with the language files `files` gives.
pub open spec fn rimworld_extracted(
    root: Seq<char>,
    files: RimWorldListing,
    result: Result<Seq<SegmentModel>, Fault>,
) -> bool {
    &&& !files.english_exists ==> result == Err::<Seq<SegmentModel>, Fault>(
        Fault::MissingFile(english_root(root)),
    )
    &&& files.english_exists && files.error.is_some() ==> result == Err::<Seq<SegmentModel>, Fault>(
        files.error.unwrap()@,
    )
    &&& files.english_exists && files.error.is_none() && files.files@.len() == 0 ==> result
        == Err::<Seq<SegmentModel>, Fault>(Fault::MissingFile(english_root(root)))
    &&& files.english_exists && files.error.is_none() && files.files@.len() > 0 ==> exists|
        sorted: Seq<LanguageFile>,
    |
        #![trigger path_ordered(files.files@, sorted)]
        path_ordered(files.files@, sorted) && result == rimworld_file_segments(root, sorted, 0)
}

/// The English language files of a mod: whether `Languages/English` is a
/// directory, the `.xml` files found below its `Keyed` and `DefInjected`
/// directories, and the error that listing a directory gave, if any.
pub struct RimWorldListing {
    pub english_exists: bool,
    pub files: Vec<LanguageFile>,
    pub error: Option<ContentError>,
}

impl ContentSourceAdapter for RimWorldModContentAdapter {
    type Probe = FileRead;
    type Files = RimWorldListing;

    fn format_id(&self) -> (r: &'static str)
        ensures
            r@ == "game.rimworld.mod"@,
    {
        rimworld_format_id()
    }

    fn category(&self) -> (r: ContentCategory)
        ensures
            r == ContentCategory::GameMod,
    {
        ContentCategory::GameMod
    }

    fn output_capabilities(&self) -> (r: Vec<OutputCapability>)
        ensures
            r@ == seq![OutputCapability::Export],
    {
        let mut v = Vec::new();
        v.push(OutputCapability::Export);
        v
    }

    /// Recognises a mod by its `About/About.xml`, whose `ModMetaData` must name a
    /// non-blank `packageId`.
    fn detect(&self, root: &str, about: &FileRead) -> (r: Result<ContentSource, ContentError>)
        ensures
            source_result(r) == rimworld_source(root@, about@),
    {
        let path = join(root, "About/About.xml");
        proof {
            reveal_strlit("About/About.xml");
            reveal_strlit("ModMetaData");
            reveal_strlit("packageId");
            reveal_strlit("name");
            reveal_strlit("game.rimworld.mod");
            reveal_strlit("ModMetaData must contain a non-empty packageId");
        }
        let text = match about {
            FileRead::Missing => {
                return Err(ContentError::UnsupportedSource);
            },
            FileRead::Failed(m) => {
                return Err(ContentError::Io { path, message: owned(m.as_str()) });
            },
            FileRead::Text(t) => t,
        };
        let entries = match read_language_entries(path.as_str(), text.as_str(), "ModMetaData") {
            Ok(e) => e,
            Err(e) => {
                return Err(e);
            },
        };
        let package = match find_key(&entries, "packageId", true) {
            Some(i) => i,
            None => {
                return Err(invalid_data(path.as_str(), "ModMetaData must contain a non-empty packageId"));
            },
        };
        if is_blank(entries[package].value.as_str()) {
            return Err(invalid_data(path.as_str(), "ModMetaData must contain a non-empty packageId"));
        }
        let package_id = owned(entries[package].value.as_str());
        let display_name = match find_key(&entries, "name", false) {
            Some(j) => if is_blank(entries[j].value.as_str()) {
                owned(entries[package].value.as_str())
            } else {
                owned(entries[j].value.as_str())
            },
            None => owned(entries[package].value.as_str()),
        };
        Ok(ContentSource {
            root: owned(root),
            format_id: rimworld_format_id(),
            display_name,
            source_id: package_id,
        })
    }

    /// Extracts every non-blank entry of the English `Keyed` and `DefInjected`
    /// files, file by file in path order.
    ///
    /// `files` describes the mod's English language files.
    fn extract(&self, source: &ContentSource, files: RimWorldListing) -> (r: Result<
        Vec<Segment>,
        ContentError,
    >)
        ensures
            rimworld_extracted(source.root@, files, segments_result(r)),
    {
        let language_root = join(source.root.as_str(), "Languages/English");
        proof {
            reveal_strlit("Languages/English");
        }
        let RimWorldListing { english_exists, files: listing, error: listing_error } = files;
        if !english_exists {
            return Err(ContentError::MissingRequiredFile(language_root));
        }
        if let Some(e) = listing_error {
            return Err(e);
        }
        if listing.len() == 0 {
            return Err(ContentError::MissingRequiredFile(language_root));
        }
        let ghost unsorted = listing@;
        let files = sort_by_key(listing);
        let r = file_segments(source.root.as_str(), language_root.as_str(), &files, 0);
        assert(path_ordered(unsorted, files@));
        r
    }
}

fn file_segments(root: &str, language_root: &str, files: &Vec<LanguageFile>, i: usize) -> (r: Result<
    Vec<Segment>,
    ContentError,
>)
    requires
        language_root@ == english_root(root@),
        i <= files.len(),
    ensures
        segments_result(r) == rimworld_file_segments(root@, files@, i as int),
    decreases files.len() - i,
{
    if i >= files.len() {
        let v: Vec<Segment> = Vec::new();
        assert(segment_models(v@) =~= Seq::<SegmentModel>::empty());
        return Ok(v);
    }
    proof {
        reveal_strlit("LanguageData");
        reveal_strlit("rimworld:");
        reveal_strlit(":");
    }
    let file = &files[i];
    let path = join(language_root, file.relative_path.as_str());
    let text = match &file.content {
        Err(m) => {
            return Err(ContentError::Io { path, message: owned(m.as_str()) });
        },
        Ok(t) => t,
    };
    let entries = match read_language_entries(path.as_str(), text.as_str(), "LanguageData") {
        Ok(e) => e,
        Err(e) => {
            return Err(e);
        },
    };
    let mut segs: Vec<Segment> = Vec::new();
    let mut j: usize = 0;
    while j < entries.len()
        invariant
            j <= entries.len(),
            path@ == join_path(english_root(root@), file.relative_path@),
            segment_models(segs@) == entry_models(entries@).take(j as int).map_values(
                |e: (Seq<char>, Seq<char>)| rimworld_segment(root@, *file, e),
            ),
        decreases entries.len() - j,
    {
        let mut id = String::new();
        push_str(&mut id, "rimworld:");
        push_str(&mut id, file.category.as_str());
        push_str(&mut id, ":");
        push_str(&mut id, file.relative_path.as_str());
        push_str(&mut id, ":");
        push_str(&mut id, entries[j].key.as_str());
        let seg = Segment {
            id,
            source: owned(entries[j].value.as_str()),
            source_file: owned(path.as_str()),
            location: owned(entries[j].key.as_str()),
            kind: SegmentKind::LocalizedKey,
            context: no_context(),
        };
        let ghost before = segs@;
        segs.push(seg);
        proof {
            assert(entry_models(entries@).take(j + 1) =~= entry_models(entries@).take(j as int).push(
                entry_models(entries@)[j as int],
            ));
            assert(segment_models(segs@) =~= segment_models(before).push(seg@));
            assert(segment_models(segs@) =~= entry_models(entries@).take(j + 1).map_values(
                |e: (Seq<char>, Seq<char>)| rimworld_segment(root@, *file, e),
            ));
        }
        j = j + 1;
    }
    proof {
        assert(entry_models(entries@).take(entries.len() as int) =~= entry_models(entries@));
    }
    let mut rest = match file_segments(root, language_root, files, i + 1) {
        Ok(v) => v,
        Err(e) => {
            return Err(e);
        },
    };
    let ghost head = segs@;
    let ghost tail = rest@;
    segs.append(&mut rest);
    proof {
        assert(segs@ =~= head + tail);
        assert(segment_models(segs@) =~= segment_models(head) + segment_models(tail));
    }
    Ok(segs)
}

/// The entries of one file, or the error reading it gives.
pub open spec fn file_entries_model(root: Seq<char>, file: LanguageFile) -> Result<
    Seq<(Seq<char>, Seq<char>)>,
    Fault,
> {
    let path = join_path(english_root(root), file.relative_path@);
    match file.content {
        Err(m) => Err(Fault::Io(path, m@)),
        Ok(x) => language_entries(path, x@, "LanguageData"@),
    }
}

} // verus!
