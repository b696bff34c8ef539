use crate::content::{
    join, join_path, written_files, ContentError, ContentOutputAdapter, ExportRequest, ExportResult,
    Fault, OutputCapability,
};
use crate::order::sort_by_key;
use crate::rimworld::{
    english_root, entry_models, file_entries_model, path_ordered, read_language_entries,
    rimworld_format_id, LanguageFile, RimWorldLanguagePackOutputAdapter, RimWorldListing,
};
use crate::text::{chars_of, owned, push_char, push_str, str_equal};
use crate::translations::{lookup, TranslationTable};
use vstd::prelude::*;

verus! {

/// The id of the segment of `key` in the language file `relative` of `category`.
pub open spec fn rimworld_id(category: Seq<char>, relative: Seq<char>, key: Seq<char>) -> Seq<char> {
    "rimworld:"@ + category + ":"@ + relative + ":"@ + key
}

/// The entries of a file that have a translation, each as `(key, translation)`, in order.
pub open spec fn translated_entries(
    table: Seq<(Seq<char>, Seq<char>)>,
    category: Seq<char>,
    relative: Seq<char>,
    entries: Seq<(Seq<char>, Seq<char>)>,
) -> Seq<(Seq<char>, Seq<char>)>
    decreases entries.len(),
{
    if entries.len() == 0 {
        Seq::empty()
    } else {
        let before = translated_entries(table, category, relative, entries.drop_last());
        let key = entries.last().0;
        match lookup(table, rimworld_id(category, relative, key)) {
            Some(t) => before.push((key, t)),
            None => before,
        }
    }
}

/// What XML escaping writes for one character.
pub open spec fn escape_char(c: char) -> Seq<char> {
    if c == '&' {
        "&amp;"@
    } else if c == '<' {
        "&lt;"@
    } else if c == '>' {
        "&gt;"@
    } else {
        seq![c]
    }
}

/// `s` with `&`, `<` and `>` written as entities.
pub open spec fn xml_escaped(s: Seq<char>) -> Seq<char>
    decreases s.len(),
{
    if s.len() == 0 {
        Seq::empty()
    } else {
        xml_escaped(s.drop_last()) + escape_char(s.last())
    }
}

/// One `<key>translation</key>` line per entry.
pub open spec fn entry_lines(entries: Seq<(Seq<char>, Seq<char>)>) -> Seq<char>
    decreases entries.len(),
{
    if entries.len() == 0 {
        Seq::empty()
    } else {
        let (k, t) = entries.last();
        entry_lines(entries.drop_last()) + "  <"@ + k + ">"@ + xml_escaped(t) + "</"@ + k + ">\n"@
    }
}

pub open spec fn language_data_header() -> Seq<char> {
    "<?xml version=\"1.0\" encoding=\"utf-8\"?>\n<LanguageData>\n"@
}

/// The text of a translated language file.
pub open spec fn language_file_xml(entries: Seq<(Seq<char>, Seq<char>)>) -> Seq<char> {
    language_data_header() + entry_lines(entries) + "</LanguageData>\n"@
}

/// The text of `LanguageInfo.xml` for a language directory.
pub open spec fn language_info_xml(language: Seq<char>) -> Seq<char> {
    "<?xml version=\"1.0\" encoding=\"utf-8\"?>\n<LanguageInfo>\n  <friendlyNameNative>"@
        + language + "</friendlyNameNative>\n  <friendlyNameEnglish>"@ + language
        + "</friendlyNameEnglish>\n  <canBeTiny>true</canBeTiny>\n  <languageWorkerClass>LanguageWorker_English</languageWorkerClass>\n</LanguageInfo>\n"@
}

/// The translated language files for `files[i..]`, in order, each as
/// `(path, text)`, or the first error in reading them; files without a
/// translated entry are left out.
pub open spec fn pack_files(
    root: Seq<char>,
    pack_root: Seq<char>,
    table: Seq<(Seq<char>, Seq<char>)>,
    files: Seq<LanguageFile>,
    i: int,
) -> Result<Seq<(Seq<char>, Seq<char>)>, Fault>
    decreases files.len() - i,
{
    if i < 0 || i >= files.len() {
        Ok(Seq::empty())
    } else {
        match file_entries_model(root, files[i]) {
            Err(f) => Err(f),
            Ok(es) => match pack_files(root, pack_root, table, files, i + 1) {
                Err(f) => Err(f),
                Ok(rest) => {
                    let tr = translated_entries(
                        table,
                        files[i].category@,
                        files[i].relative_path@,
                        es,
                    );
                    if tr.len() > 0 {
                        Ok(
                            seq![
                                (
                                    join_path(pack_root, files[i].relative_path@),
                                    language_file_xml(tr),
                                ),
                            ] + rest,
                        )
                    } else {
                        Ok(rest)
                    }
                },
            },
        }
    }
}

/// The directory of a RimWorld language pack for a target language.
pub open spec fn pack_language(language: Seq<char>) -> Option<Seq<char>> {
    if language == "zh-CN"@ || language == "ChineseSimplified"@ {
        Some("ChineseSimplified"@)
    } else {
        None
    }
}

pub open spec fn unsupported_language_message() -> Seq<char> {
    "RimWorld language pack export currently supports only zh-CN"@
}

/// Where the pack of language directory `language` goes below `output_root`.
pub open spec fn pack_root(output_root: Seq<char>, language: Seq<char>) -> Seq<char> {
    join_path(join_path(output_root, "Languages"@), language)
}

/// Every file of a pack for the sorted language files: the translated files,
/// then `LanguageInfo.xml`.
pub open spec fn pack_result(
    root: Seq<char>,
    output_root: Seq<char>,
    language: Seq<char>,
    table: Seq<(Seq<char>, Seq<char>)>,
    files: Seq<LanguageFile>,
) -> Result<Seq<(Seq<char>, Seq<char>)>, Fault> {
    let dir = pack_root(output_root, language);
    match pack_files(root, dir, table, files, 0) {
        Err(f) => Err(f),
        Ok(written) => Ok(
            written.push((join_path(dir, "LanguageInfo.xml"@), language_info_xml(language))),
        ),
    }
}

/// The files an export result holds, or its error.
pub open spec fn export_model(r: Result<ExportResult, ContentError>) -> Result<
    Seq<(Seq<char>, Seq<char>)>,
    Fault,
> {
    match r {
        Ok(x) => Ok(written_files(x)),
        Err(e) => Err(e@),
    }
}

/// What exporting a language pack of the source `(format_id, root)` gives.
pub open spec fn pack_exported(
    format_id: Seq<char>,
    root: Seq<char>,
    output_root: Seq<char>,
    target_language: Seq<char>,
    table: Seq<(Seq<char>, Seq<char>)>,
    files: RimWorldListing,
    result: Result<Seq<(Seq<char>, Seq<char>)>, Fault>,
) -> bool {
    &&& format_id != "game.rimworld.mod"@ ==> result == Err::<Seq<(Seq<char>, Seq<char>)>, Fault>(
        Fault::Unsupported,
    )
    &&& format_id == "game.rimworld.mod"@ && pack_language(target_language) is None ==> result
        == Err::<Seq<(Seq<char>, Seq<char>)>, Fault>(
        Fault::InvalidData(root, unsupported_language_message()),
    )
    &&& format_id == "game.rimworld.mod"@ && pack_language(target_language) is Some ==> {
        &&& !files.english_exists ==> result == Err::<Seq<(Seq<char>, Seq<char>)>, Fault>(
            Fault::MissingFile(english_root(root)),
        )
        &&& files.english_exists && files.error.is_some() ==> result == Err::<
            Seq<(Seq<char>, Seq<char>)>,
            Fault,
        >(files.error.unwrap()@)
        &&& files.english_exists && files.error.is_none() && files.files@.len() == 0 ==> result
            == Err::<Seq<(Seq<char>, Seq<char>)>, Fault>(Fault::MissingFile(english_root(root)))
        &&& files.english_exists && files.error.is_none() && files.files@.len() > 0 ==> exists|
            sorted: Seq<LanguageFile>,
        |
            #![trigger path_ordered(files.files@, sorted)]
            path_ordered(files.files@, sorted) && result == pack_result(
                root,
                output_root,
                pack_language(target_language).unwrap(),
                table,
                sorted,
            )
    }
}

/// The language directory for `language`, or the error for a language that
/// packs do not support.
pub fn language_directory(language: &str, source_root: &str) -> (r: Result<
    &'static str,
    ContentError,
>)
    ensures
        match (r, pack_language(language@)) {
            (Ok(d), Some(e)) => d@ == e,
            (Err(err), None) => err@ == Fault::InvalidData(
                source_root@,
                unsupported_language_message(),
            ),
            _ => false,
        },
{
    proof {
        reveal_strlit("zh-CN");
        reveal_strlit("ChineseSimplified");
        reveal_strlit("RimWorld language pack export currently supports only zh-CN");
    }
    if str_equal(language, "zh-CN") || str_equal(language, "ChineseSimplified") {
        Ok("ChineseSimplified")
    } else {
        Err(
            ContentError::InvalidData {
                path: owned(source_root),
                message: owned("RimWorld language pack export currently supports only zh-CN"),
            },
        )
    }
}

/// Escapes `&`, `<` and `>` for XML text.
pub fn xml_escape(value: &str) -> (r: String)
    ensures
        r@ == xml_escaped(value@),
{
    let v = chars_of(value);
    let mut out = String::new();
    let mut i: usize = 0;
    proof {
        reveal_strlit("&amp;");
        reveal_strlit("&lt;");
        reveal_strlit("&gt;");
    }
    assert(v@.take(0) =~= Seq::<char>::empty());
    while i < v.len()
        invariant
            i <= v.len(),
            out@ == xml_escaped(v@.take(i as int)),
        decreases v.len() - i,
    {
        let c = v[i];
        if c == '&' {
            push_str(&mut out, "&amp;");
        } else if c == '<' {
            push_str(&mut out, "&lt;");
        } else if c == '>' {
            push_str(&mut out, "&gt;");
        } else {
            push_char(&mut out, c);
        }
        assert(v@.take(i + 1).drop_last() =~= v@.take(i as int));
        i = i + 1;
        assert(out@ =~= xml_escaped(v@.take(i as int)));
    }
    assert(v@.take(v.len() as int) =~= v@);
    out
}

/// The text of `LanguageInfo.xml` for a language directory.
fn language_info(language: &str) -> (r: String)
    ensures
        r@ == language_info_xml(language@),
{
    let mut out = String::new();
    push_str(
        &mut out,
        "<?xml version=\"1.0\" encoding=\"utf-8\"?>\n<LanguageInfo>\n  <friendlyNameNative>",
    );
    push_str(&mut out, language);
    push_str(&mut out, "</friendlyNameNative>\n  <friendlyNameEnglish>");
    push_str(&mut out, language);
    push_str(
        &mut out,
        "</friendlyNameEnglish>\n  <canBeTiny>true</canBeTiny>\n  <languageWorkerClass>LanguageWorker_English</languageWorkerClass>\n</LanguageInfo>\n",
    );
    out
}

/// The translated file for one language file, if any entry of it has a translation.
fn pack_file(
    root: &str,
    language_root: &str,
    dir: &str,
    table: &TranslationTable,
    file: &LanguageFile,
) -> (r: Result<Option<(String, String)>, ContentError>)
    requires
        language_root@ == english_root(root@),
    ensures
        match (r, file_entries_model(root@, *file)) {
            (Err(e), Err(f)) => e@ == f,
            (Ok(w), Ok(es)) => {
                let tr = translated_entries(
                    table.model(),
                    file.category@,
                    file.relative_path@,
                    es,
                );
                match w {
                    Some((p, x)) => tr.len() > 0 && p@ == join_path(dir@, file.relative_path@)
                        && x@ == language_file_xml(tr),
                    None => tr.len() == 0,
                }
            },
            _ => false,
        },
{
    proof {
        reveal_strlit("LanguageData");
        reveal_strlit("rimworld:");
        reveal_strlit(":");
        reveal_strlit("  <");
        reveal_strlit(">");
        reveal_strlit("</");
        reveal_strlit(">\n");
        reveal_strlit("</LanguageData>\n");
    }
    let path = join(language_root, file.relative_path.as_str());
    let text = match &file.content {
        Err(m) => {
            return Err(ContentError::Io { path, message: owned(m.as_str()) });
        },
        Ok(t) => t,
    };
    let entries = match read_language_entries(path.as_str(), text.as_str(), "LanguageData") {
        Ok(e) => e,
        Err(e) => {
            return Err(e);
        },
    };
    let ghost es = entry_models(entries@);
    let ghost cat = file.category@;
    let ghost rel = file.relative_path@;
    let mut xml = String::new();
    push_str(&mut xml, "<?xml version=\"1.0\" encoding=\"utf-8\"?>\n<LanguageData>\n");
    let mut count: usize = 0;
    let mut j: usize = 0;
    assert(es.take(0) =~= Seq::<(Seq<char>, Seq<char>)>::empty());
    while j < entries.len()
        invariant
            j <= entries.len(),
            es == entry_models(entries@),
            cat == file.category@,
            rel == file.relative_path@,
            xml@ == language_data_header() + entry_lines(
                translated_entries(table.model(), cat, rel, es.take(j as int)),
            ),
            count as int == translated_entries(table.model(), cat, rel, es.take(j as int)).len(),
            count <= j,
        decreases entries.len() - j,
    {
        let mut id = String::new();
        push_str(&mut id, "rimworld:");
        push_str(&mut id, file.category.as_str());
        push_str(&mut id, ":");
        push_str(&mut id, file.relative_path.as_str());
        push_str(&mut id, ":");
        push_str(&mut id, entries[j].key.as_str());
        let ghost prev = translated_entries(table.model(), cat, rel, es.take(j as int));
        assert(es.take(j + 1).drop_last() =~= es.take(j as int));
        assert(es.take(j + 1).last() == es[j as int]);
        match table.get(id.as_str()) {
            Some(t) => {
                let key = entries[j].key.as_str();
                push_str(&mut xml, "  <");
                push_str(&mut xml, key);
                push_str(&mut xml, ">");
                let escaped = xml_escape(t.as_str());
                push_str(&mut xml, escaped.as_str());
                push_str(&mut xml, "</");
                push_str(&mut xml, key);
                push_str(&mut xml, ">\n");
                count = count + 1;
                proof {
                    let now = translated_entries(table.model(), cat, rel, es.take(j + 1));
                    assert(now == prev.push((es[j as int].0, t@)));
                    assert(now.drop_last() =~= prev);
                    assert(xml@ =~= language_data_header() + entry_lines(now));
                }
            },
            None => {},
        }
        j = j + 1;
    }
    assert(es.take(entries.len() as int) =~= es);
    if count == 0 {
        return Ok(None);
    }
    push_str(&mut xml, "</LanguageData>\n");
    let target = join(dir, file.relative_path.as_str());
    Ok(Some((target, xml)))
}

/// The translated files of `files[i..]`.
fn pack_files_from(
    root: &str,
    language_root: &str,
    dir: &str,
    table: &TranslationTable,
    files: &Vec<LanguageFile>,
    i: usize,
) -> (r: Result<Vec<(String, String)>, ContentError>)
    requires
        language_root@ == english_root(root@),
        i <= files.len(),
    ensures
        match (r, pack_files(root@, dir@, table.model(), files@, i as int)) {
            (Ok(w), Ok(m)) => w@.map_values(|p: (String, String)| (p.0@, p.1@)) == m,
            (Err(e), Err(f)) => e@ == f,
            _ => false,
        },
    decreases files.len() - i,
{
    if i >= files.len() {
        let v: Vec<(String, String)> = Vec::new();
        assert(v@.map_values(|p: (String, String)| (p.0@, p.1@)) =~= Seq::<
            (Seq<char>, Seq<char>),
        >::empty());
        return Ok(v);
    }
    let head = match pack_file(root, language_root, dir, table, &files[i]) {
        Ok(h) => h,
        Err(e) => {
            return Err(e);
        },
    };
    let rest = match pack_files_from(root, language_root, dir, table, files, i + 1) {
        Ok(r) => r,
        Err(e) => {
            return Err(e);
        },
    };
    match head {
        None => Ok(rest),
        Some(pair) => {
            let mut out: Vec<(String, String)> = Vec::new();
            out.push(pair);
            let mut rest = rest;
            let ghost h = out@;
            let ghost t = rest@;
            out.append(&mut rest);
            proof {
                assert(out@ =~= h + t);
                assert(out@.map_values(|p: (String, String)| (p.0@, p.1@)) =~= h.map_values(
                    |p: (String, String)| (p.0@, p.1@),
                ) + t.map_values(|p: (String, String)| (p.0@, p.1@)));
            }
            Ok(out)
        },
    }
}

impl ContentOutputAdapter for RimWorldLanguagePackOutputAdapter {
    type Files = RimWorldListing;

    fn format_id(&self) -> (r: &'static str)
        ensures
            r@ == "game.rimworld.mod"@,
    {
        rimworld_format_id()
    }

    fn capabilities(&self) -> (r: Vec<OutputCapability>)
        ensures
            r@ == seq![OutputCapability::Export],
    {
        let mut v = Vec::new();
        v.push(OutputCapability::Export);
        v
    }

    /// Writes the translated entries of a mod as a separate language pack:
    /// one file per English language file that has a translated entry, below
    /// `Languages/ChineseSimplified`, and a `LanguageInfo.xml`.
    ///
    /// `files` describes the mod's English language files, as for extraction.
    fn export(&self, request: &ExportRequest, files: RimWorldListing) -> (r: Result<
        ExportResult,
        ContentError,
    >)
        ensures
            r matches Ok(x) ==> x.output_root@ == request.output_root@ && x.files.len()
                == x.contents.len(),
            pack_exported(
                request.source.format_id@,
                request.source.root@,
                request.output_root@,
                request.target_language@,
                request.translations.model(),
                files,
                export_model(r),
            ),
    {
        proof {
            reveal_strlit("game.rimworld.mod");
            reveal_strlit("Languages/English");
            reveal_strlit("Languages");
            reveal_strlit("LanguageInfo.xml");
        }
        let source = request.source;
        if !str_equal(source.format_id, "game.rimworld.mod") {
            return Err(ContentError::UnsupportedSource);
        }
        let language = match language_directory(request.target_language, source.root.as_str()) {
            Ok(d) => d,
            Err(e) => {
                return Err(e);
            },
        };
        let language_root = join(source.root.as_str(), "Languages/English");
        let RimWorldListing { english_exists, files: listing, error: listing_error } = files;
        if !english_exists {
            return Err(ContentError::MissingRequiredFile(language_root));
        }
        if let Some(e) = listing_error {
            return Err(e);
        }
        if listing.len() == 0 {
            return Err(ContentError::MissingRequiredFile(language_root));
        }
        let ghost unsorted = listing@;
        let sorted = sort_by_key(listing);
        assert(path_ordered(unsorted, sorted@));
        let languages = join(request.output_root, "Languages");
        let dir = join(languages.as_str(), language);
        let written = match pack_files_from(
            source.root.as_str(),
            language_root.as_str(),
            dir.as_str(),
            request.translations,
            &sorted,
            0,
        ) {
            Ok(w) => w,
            Err(e) => {
                return Err(e);
            },
        };
        let ghost pairs = written@.map_values(|p: (String, String)| (p.0@, p.1@));
        let mut paths: Vec<String> = Vec::new();
        let mut contents: Vec<String> = Vec::new();
        let mut k: usize = 0;
        while k < written.len()
            invariant
                k <= written.len(),
                pairs == written@.map_values(|p: (String, String)| (p.0@, p.1@)),
                paths.len() == k,
                contents.len() == k,
                forall|m: int|
                    0 <= m < k ==> (#[trigger] paths@[m])@ == pairs[m].0 && contents@[m]@
                        == pairs[m].1,
            decreases written.len() - k,
        {
            assert(pairs[k as int] == (written@[k as int].0@, written@[k as int].1@));
            paths.push(owned(written[k].0.as_str()));
            contents.push(owned(written[k].1.as_str()));
            k = k + 1;
        }
        let info = join(dir.as_str(), "LanguageInfo.xml");
        paths.push(info);
        contents.push(language_info(language));
        let result = ExportResult { output_root: owned(request.output_root), files: paths, contents };
        proof {
            let expected = pairs.push(
                (
                    join_path(pack_root(request.output_root@, language@), "LanguageInfo.xml"@),
                    language_info_xml(language@),
                ),
            );
            assert(written_files(result) =~= expected);
        }
        Ok(result)
    }
}

/// Whether an entry `(key, text)` of the file `relative` of `category` has a
/// translation in `table`.
pub open spec fn has_translation(
    table: Seq<(Seq<char>, Seq<char>)>,
    category: Seq<char>,
    relative: Seq<char>,
) -> spec_fn((Seq<char>, Seq<char>)) -> bool {
    |e: (Seq<char>, Seq<char>)| lookup(table, rimworld_id(category, relative, e.0)) is Some
}

/// The line that a translated language file holds for `key`.
pub open spec fn key_line(key: Seq<char>, translation: Seq<char>) -> Seq<char> {
    "  <"@ + key + ">"@ + xml_escaped(translation) + "</"@ + key + ">\n"@
}

/// Whether `needle` occurs in `hay`.
pub open spec fn holds_text(hay: Seq<char>, needle: Seq<char>) -> bool {
    exists|a: int| 0 <= a && a + needle.len() <= hay.len() && #[trigger] hay.subrange(a, a + needle.len()) == needle
}

proof fn lemma_holds_left(hay: Seq<char>, more: Seq<char>, needle: Seq<char>)
    requires
        holds_text(hay, needle),
    ensures
        holds_text(hay + more, needle),
{
    let a = choose|a: int| 0 <= a && a + needle.len() <= hay.len() && #[trigger] hay.subrange(a, a + needle.len()) == needle;
    assert((hay + more).subrange(a, a + needle.len()) =~= hay.subrange(a, a + needle.len()));
}

proof fn lemma_holds_right(before: Seq<char>, hay: Seq<char>, needle: Seq<char>)
    requires
        holds_text(hay, needle),
    ensures
        holds_text(before + hay, needle),
{
    let a = choose|a: int| 0 <= a && a + needle.len() <= hay.len() && #[trigger] hay.subrange(a, a + needle.len()) == needle;
    assert((before + hay).subrange(before.len() + a, before.len() + a + needle.len()) =~= hay.subrange(
        a,
        a + needle.len(),
    ));
}

proof fn lemma_lines_hold(entries: Seq<(Seq<char>, Seq<char>)>, j: int)
    requires
        0 <= j < entries.len(),
    ensures
        holds_text(entry_lines(entries), key_line(entries[j].0, entries[j].1)),
    decreases entries.len(),
{
    let (k, t) = entries.last();
    let line = key_line(k, t);
    assert(entry_lines(entries) =~= entry_lines(entries.drop_last()) + line);
    if j == entries.len() - 1 {
        assert(line.subrange(0, 0 + line.len() as int) =~= line);
        lemma_holds_right(entry_lines(entries.drop_last()), line, line);
    } else {
        assert(entries.drop_last()[j] == entries[j]);
        lemma_lines_hold(entries.drop_last(), j);
        lemma_holds_left(entry_lines(entries.drop_last()), line, key_line(entries[j].0, entries[j].1));
    }
}

proof fn lemma_translated_positions(
    table: Seq<(Seq<char>, Seq<char>)>,
    category: Seq<char>,
    relative: Seq<char>,
    entries: Seq<(Seq<char>, Seq<char>)>,
)
    ensures
        translated_entries(table, category, relative, entries).len() == entries.filter(
            has_translation(table, category, relative),
        ).len(),
        forall|k: int|
            0 <= k < entries.len() && lookup(table, rimworld_id(category, relative, (#[trigger] entries[k]).0))
                is Some ==> {
                let at = entries.take(k).filter(has_translation(table, category, relative)).len();
                &&& at < translated_entries(table, category, relative, entries).len()
                &&& translated_entries(table, category, relative, entries)[at as int] == (
                    entries[k].0,
                    lookup(table, rimworld_id(category, relative, entries[k].0))->Some_0,
                )
            },
    decreases entries.len(),
{
    let pred = has_translation(table, category, relative);
    if entries.len() > 0 {
        let shorter = entries.drop_last();
        lemma_translated_positions(table, category, relative, shorter);
        let tr = translated_entries(table, category, relative, entries);
        let prev = translated_entries(table, category, relative, shorter);
        reveal(Seq::filter);
        assert(entries.filter(pred) == if pred(entries.last()) {
            shorter.filter(pred).push(entries.last())
        } else {
            shorter.filter(pred)
        });
        assert forall|k: int|
            0 <= k < entries.len() && lookup(table, rimworld_id(category, relative, (#[trigger] entries[k]).0))
                is Some implies {
                let at = entries.take(k).filter(pred).len();
                &&& at < tr.len()
                &&& tr[at as int] == (
                    entries[k].0,
                    lookup(table, rimworld_id(category, relative, entries[k].0))->Some_0,
                )
            } by {
            if k == entries.len() - 1 {
                assert(entries.take(k) =~= shorter);
            } else {
                assert(shorter[k] == entries[k]);
                assert(entries.take(k) =~= shorter.take(k));
            }
        }
    }
}

/// A translated language file keeps every entry that has a translation and
/// nothing else, in file order: its `n`-th entry is the `n`-th entry of the
/// file that has one, with that translation; so it writes a
/// `<key>escaped translation</key>` line for every translated entry, and as
/// many entries as the file has translated ones.
pub proof fn law_every_translated_key_written(
    table: Seq<(Seq<char>, Seq<char>)>,
    category: Seq<char>,
    relative: Seq<char>,
    entries: Seq<(Seq<char>, Seq<char>)>,
)
    ensures
        translated_entries(table, category, relative, entries).len() == entries.filter(
            has_translation(table, category, relative),
        ).len(),
        forall|k: int|
            0 <= k < entries.len() && lookup(table, rimworld_id(category, relative, (#[trigger] entries[k]).0))
                is Some ==> {
                let at = entries.take(k).filter(has_translation(table, category, relative)).len();
                let t = lookup(table, rimworld_id(category, relative, entries[k].0))->Some_0;
                &&& translated_entries(table, category, relative, entries)[at as int] == (entries[k].0, t)
                &&& holds_text(
                    language_file_xml(translated_entries(table, category, relative, entries)),
                    key_line(entries[k].0, t),
                )
            },
{
    lemma_translated_positions(table, category, relative, entries);
    let tr = translated_entries(table, category, relative, entries);
    assert forall|k: int|
        0 <= k < entries.len() && lookup(table, rimworld_id(category, relative, (#[trigger] entries[k]).0))
            is Some implies {
            let at = entries.take(k).filter(has_translation(table, category, relative)).len();
            let t = lookup(table, rimworld_id(category, relative, entries[k].0))->Some_0;
            &&& tr[at as int] == (entries[k].0, t)
            &&& holds_text(language_file_xml(tr), key_line(entries[k].0, t))
        } by {
        let at = entries.take(k).filter(has_translation(table, category, relative)).len();
        lemma_lines_hold(tr, at as int);
        lemma_holds_right(language_data_header(), entry_lines(tr), key_line(tr[at as int].0, tr[at as int].1));
        lemma_holds_left(
            language_data_header() + entry_lines(tr),
            "</LanguageData>\n"@,
            key_line(tr[at as int].0, tr[at as int].1),
        );
    }
}

/// Whether a language file reads and has at least one translated entry.
pub open spec fn gets_translated(
    root: Seq<char>,
    table: Seq<(Seq<char>, Seq<char>)>,
) -> spec_fn(LanguageFile) -> bool {
    |f: LanguageFile|
        match file_entries_model(root, f) {
            Ok(es) => translated_entries(table, f.category@, f.relative_path@, es).len() > 0,
            Err(_) => false,
        }
}

proof fn lemma_pack_positions(
    root: Seq<char>,
    dir: Seq<char>,
    table: Seq<(Seq<char>, Seq<char>)>,
    files: Seq<LanguageFile>,
    s: int,
)
    requires
        0 <= s <= files.len(),
        forall|i: int| s <= i < files.len() ==> file_entries_model(root, #[trigger] files[i]) is Ok,
    ensures
        pack_files(root, dir, table, files, s) matches Ok(out) && out.len() == files.subrange(
            s,
            files.len() as int,
        ).filter(gets_translated(root, table)).len() && forall|i: int|
            s <= i < files.len() && gets_translated(root, table)(#[trigger] files[i]) ==> files.subrange(
                s,
                i,
            ).filter(gets_translated(root, table)).len() < out.len() && out[files.subrange(
                s,
                i,
            ).filter(gets_translated(root, table)).len() as int] == (
                join_path(dir, files[i].relative_path@),
                language_file_xml(
                    translated_entries(
                        table,
                        files[i].category@,
                        files[i].relative_path@,
                        file_entries_model(root, files[i])->Ok_0,
                    ),
                ),
            ),
    decreases files.len() - s,
{
    let pred = gets_translated(root, table);
    reveal_with_fuel(Seq::filter, 2);
    if s == files.len() {
        assert(files.subrange(s, s) =~= Seq::<LanguageFile>::empty());
    } else {
        lemma_pack_positions(root, dir, table, files, s + 1);
        let rest = pack_files(root, dir, table, files, s + 1)->Ok_0;
        let out = pack_files(root, dir, table, files, s)->Ok_0;
        let head = seq![files[s]];
        assert(head.drop_last() =~= Seq::<LanguageFile>::empty());
        assert(head.filter(pred) == if pred(files[s]) { head } else { Seq::<LanguageFile>::empty() });
        assert(files.subrange(s, files.len() as int) =~= head + files.subrange(s + 1, files.len() as int));
        Seq::filter_distributes_over_add(head, files.subrange(s + 1, files.len() as int), pred);
        let entry_s = (
            join_path(dir, files[s].relative_path@),
            language_file_xml(
                translated_entries(
                    table,
                    files[s].category@,
                    files[s].relative_path@,
                    file_entries_model(root, files[s])->Ok_0,
                ),
            ),
        );
        let hd: Seq<(Seq<char>, Seq<char>)> = if pred(files[s]) {
            seq![entry_s]
        } else {
            Seq::empty()
        };
        assert(out =~= hd + rest);
        assert forall|i: int| s <= i < files.len() && pred(#[trigger] files[i]) implies files.subrange(
            s,
            i,
        ).filter(pred).len() < out.len() && out[files.subrange(
            s,
            i,
        ).filter(pred).len() as int] == (
            join_path(dir, files[i].relative_path@),
            language_file_xml(
                translated_entries(
                    table,
                    files[i].category@,
                    files[i].relative_path@,
                    file_entries_model(root, files[i])->Ok_0,
                ),
            ),
        ) by {
            if i == s {
                assert(files.subrange(s, s) =~= Seq::<LanguageFile>::empty());
            } else {
                assert(files.subrange(s, i) =~= head + files.subrange(s + 1, i));
                Seq::filter_distributes_over_add(head, files.subrange(s + 1, i), pred);
                let x = files.subrange(s + 1, i).filter(pred).len();
                assert(files.subrange(s, i).filter(pred).len() == hd.len() + x);
                assert(out[(hd.len() + x) as int] == rest[x as int]);
            }
        }
    }
}

/// When every language file reads, the pack holds, in file order, one
/// translated file for each language file with a translated entry (at its
/// relative path below the pack folder, holding that file's translated
/// entries), and nothing else: its `n`-th file is that of the `n`-th language
/// file that has a translated entry.
pub proof fn law_every_translated_file_packed(
    root: Seq<char>,
    dir: Seq<char>,
    table: Seq<(Seq<char>, Seq<char>)>,
    files: Seq<LanguageFile>,
)
    requires
        forall|i: int| 0 <= i < files.len() ==> file_entries_model(root, #[trigger] files[i]) is Ok,
    ensures
        pack_files(root, dir, table, files, 0) matches Ok(out) && out.len() == files.filter(
            gets_translated(root, table),
        ).len() && forall|i: int|
            0 <= i < files.len() && gets_translated(root, table)(#[trigger] files[i]) ==> out[files.take(
                i,
            ).filter(gets_translated(root, table)).len() as int] == (
                join_path(dir, files[i].relative_path@),
                language_file_xml(
                    translated_entries(
                        table,
                        files[i].category@,
                        files[i].relative_path@,
                        file_entries_model(root, files[i])->Ok_0,
                    ),
                ),
            ),
{
    lemma_pack_positions(root, dir, table, files, 0);
    assert(files.subrange(0, files.len() as int) =~= files);
    assert forall|i: int| 0 <= i < files.len() implies #[trigger] files.subrange(0, i) == files.take(i) by {
        assert(files.subrange(0, i) =~= files.take(i));
    }
}

} // verus!
