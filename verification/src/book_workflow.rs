use crate::book::{
    book_segment_models, chapter_models, copy_strings, export_extension, BookChapter,
    BookChapterModel, BookExportFormat, BookExportProfile, BookExportRecord, BookProject,
    BookProjectModel, BookSegment, BookSegmentModel, SegmentStatus,
};
use crate::book_text::string_texts;
use crate::desktop::{file_stem_of, safe_file_stem};
use crate::order::{sort_by_key, sorted_by_key, text_before, text_key, with_key, SortKey};
use crate::text::{all_space, decimal, is_blank, owned, push_decimal, push_str, str_equal};
use vstd::prelude::*;

verus! {

// ---------------------------------------------------------------------------
// What to translate
// ---------------------------------------------------------------------------
/// A paragraph handed to the translator, with its chapter title as context.
#[derive(Clone, Debug, PartialEq, Eq)]
pub struct TranslationSegment {
    pub id: String,
    pub context: String,
    pub source: String,
}

/// Mathematical model of a [`TranslationSegment`]: (id, context, source).
pub open spec fn request_models(v: Seq<TranslationSegment>) -> Seq<(Seq<char>, Seq<char>, Seq<char>)> {
    v.map_values(|s: TranslationSegment| (s.id@, s.context@, s.source@))
}

/// The paragraphs of a chapter that still need a translation (all of them when
/// `skip_translated` is false).
pub open spec fn pending_in(segments: Seq<BookSegmentModel>, title: Seq<char>, skip_translated: bool) -> Seq<
    (Seq<char>, Seq<char>, Seq<char>),
>
    decreases segments.len(),
{
    if segments.len() == 0 {
        Seq::empty()
    } else {
        let s = segments.last();
        pending_in(segments.drop_last(), title, skip_translated) + if !skip_translated || all_space(
            s.translation,
        ) {
            seq![(s.id, title, s.source)]
        } else {
            Seq::empty()
        }
    }
}

/// Whether a chapter is in the requested scope.
pub open spec fn in_scope(chapter: BookChapterModel, chapter_id: Option<Seq<char>>) -> bool {
    match chapter_id {
        Some(id) => id == chapter.id,
        None => true,
    }
}

/// The paragraphs to translate, chapter by chapter.
pub open spec fn pending_segments(
    chapters: Seq<BookChapterModel>,
    chapter_id: Option<Seq<char>>,
    skip_translated: bool,
) -> Seq<(Seq<char>, Seq<char>, Seq<char>)>
    decreases chapters.len(),
{
    if chapters.len() == 0 {
        Seq::empty()
    } else {
        let c = chapters.last();
        pending_segments(chapters.drop_last(), chapter_id, skip_translated) + if in_scope(
            c,
            chapter_id,
        ) {
            pending_in(c.segments, c.title, skip_translated)
        } else {
            Seq::empty()
        }
    }
}

/// The model of an optional string slice.
pub open spec fn opt_str(o: Option<&str>) -> Option<Seq<char>> {
    match o {
        Some(s) => Some(s@),
        None => None,
    }
}

fn push_pending(out: &mut Vec<TranslationSegment>, chapter: &BookChapter, skip_translated: bool)
    ensures
        request_models(final(out)@) == request_models(old(out)@) + pending_in(
            book_segment_models(chapter.segments@),
            chapter.title@,
            skip_translated,
        ),
{
    let ghost start = request_models(out@);
    let ghost models = book_segment_models(chapter.segments@);
    let mut j: usize = 0;
    assert(models.take(0) =~= Seq::<BookSegmentModel>::empty());
    assert(start + pending_in(models.take(0), chapter.title@, skip_translated) =~= start);
    while j < chapter.segments.len()
        invariant
            j <= chapter.segments.len(),
            models == book_segment_models(chapter.segments@),
            request_models(out@) == start + pending_in(models.take(j as int), chapter.title@, skip_translated),
        decreases chapter.segments.len() - j,
    {
        assert(models.take(j + 1).drop_last() =~= models.take(j as int));
        assert(models.take(j + 1).last() == chapter.segments@[j as int]@);
        let segment = &chapter.segments[j];
        let ghost before = request_models(out@);
        if !skip_translated || is_blank(segment.translation.as_str()) {
            let request = TranslationSegment {
                id: owned(segment.id.as_str()),
                context: owned(chapter.title.as_str()),
                source: owned(segment.source.as_str()),
            };
            out.push(request);
            assert(request_models(out@) =~= before.push((request.id@, request.context@, request.source@)));
        }
        j = j + 1;
        assert(request_models(out@) =~= start + pending_in(models.take(j as int), chapter.title@, skip_translated));
    }
    assert(models.take(chapter.segments.len() as int) =~= models);
}

/// The paragraphs to translate: those of the chapter `chapter_id` (every
/// chapter when it is `None`), skipping translated ones when `skip_translated`.
pub fn segments_for_translation(project: &BookProject, chapter_id: Option<&str>, skip_translated: bool) -> (r:
    Vec<TranslationSegment>)
    ensures
        request_models(r@) == pending_segments(chapter_models(project.chapters@), opt_str(chapter_id), skip_translated),
{
    let ghost models = chapter_models(project.chapters@);
    let mut out: Vec<TranslationSegment> = Vec::new();
    let mut i: usize = 0;
    assert(models.take(0) =~= Seq::<BookChapterModel>::empty());
    assert(request_models(out@) =~= Seq::<(Seq<char>, Seq<char>, Seq<char>)>::empty());
    while i < project.chapters.len()
        invariant
            i <= project.chapters.len(),
            models == chapter_models(project.chapters@),
            request_models(out@) == pending_segments(models.take(i as int), opt_str(chapter_id), skip_translated),
        decreases project.chapters.len() - i,
    {
        assert(models.take(i + 1).drop_last() =~= models.take(i as int));
        assert(models.take(i + 1).last() == project.chapters@[i as int]@);
        let chapter = &project.chapters[i];
        let selected = match chapter_id {
            Some(id) => str_equal(id, chapter.id.as_str()),
            None => true,
        };
        if selected {
            push_pending(&mut out, chapter, skip_translated);
        } else {
            assert(request_models(out@) + Seq::<(Seq<char>, Seq<char>, Seq<char>)>::empty() =~= request_models(out@));
        }
        i = i + 1;
    }
    assert(models.take(project.chapters.len() as int) =~= models);
    out
}

/// The message when nothing in scope needs a translation.
pub open spec fn nothing_to_translate() -> Seq<char> {
    "当前范围没有需要翻译的段落"@
}

/// The paragraphs a translation run covers: one chapter with all its
/// paragraphs, or the whole book without the translated ones; refused when
/// there is nothing to do.
pub fn book_translation_scope(project: &BookProject, chapter_id: Option<&str>) -> (r: Result<
    Vec<TranslationSegment>,
    String,
>)
    ensures
        match r {
            Ok(v) => request_models(v@) == pending_segments(
                chapter_models(project.chapters@),
                opt_str(chapter_id),
                chapter_id is None,
            ) && v.len() > 0,
            Err(m) => pending_segments(
                chapter_models(project.chapters@),
                opt_str(chapter_id),
                chapter_id is None,
            ).len() == 0 && m@ == nothing_to_translate(),
        },
{
    let segments = segments_for_translation(project, chapter_id, chapter_id.is_none());
    if segments.len() == 0 {
        Err(owned("当前范围没有需要翻译的段落"))
    } else {
        Ok(segments)
    }
}

// ---------------------------------------------------------------------------
// Applying a run's results
// ---------------------------------------------------------------------------
/// A translation that came back for a paragraph, with the codes of the quality
/// findings raised on it.
#[derive(Clone, Debug, PartialEq, Eq)]
pub struct BookTranslation {
    pub segment_id: String,
    pub translation: String,
    pub findings: Vec<String>,
}

/// Mathematical model of a [`BookTranslation`].
pub open spec fn outcome_models(v: Seq<BookTranslation>) -> Seq<(Seq<char>, Seq<char>, Seq<Seq<char>>)> {
    v.map_values(|t: BookTranslation| (t.segment_id@, t.translation@, string_texts(t.findings@)))
}

/// The first outcome for a paragraph.
pub open spec fn outcome_for(
    outcomes: Seq<(Seq<char>, Seq<char>, Seq<Seq<char>>)>,
    id: Seq<char>,
    i: int,
) -> Option<(Seq<char>, Seq<char>, Seq<Seq<char>>)>
    decreases outcomes.len() - i,
{
    if i < 0 || i >= outcomes.len() {
        None
    } else if outcomes[i].0 == id {
        Some(outcomes[i])
    } else {
        outcome_for(outcomes, id, i + 1)
    }
}

/// Parts joined with a separator.
pub open spec fn joined_with(parts: Seq<Seq<char>>, sep: Seq<char>) -> Seq<char>
    decreases parts.len(),
{
    if parts.len() == 0 {
        Seq::empty()
    } else if parts.len() == 1 {
        parts[0]
    } else {
        joined_with(parts.drop_last(), sep) + sep + parts.last()
    }
}

/// A paragraph after a run: with a translation it becomes a draft, or an issue
/// noting the finding codes joined by `、`.
pub open spec fn applied_segment(
    s: BookSegmentModel,
    outcomes: Seq<(Seq<char>, Seq<char>, Seq<Seq<char>>)>,
) -> BookSegmentModel {
    match outcome_for(outcomes, s.id, 0) {
        None => s,
        Some(o) => if o.2.len() == 0 {
            BookSegmentModel {
                translation: o.1,
                status: SegmentStatus::Draft,
                qa_note: None,
                ..s
            }
        } else {
            BookSegmentModel {
                translation: o.1,
                status: SegmentStatus::Issue,
                qa_note: Some(joined_with(o.2, "、"@)),
                ..s
            }
        },
    }
}

/// Whether a paragraph gets a translation with findings.
pub open spec fn raises_issue(s: BookSegmentModel, outcomes: Seq<(Seq<char>, Seq<char>, Seq<Seq<char>>)>) -> bool {
    match outcome_for(outcomes, s.id, 0) {
        Some(o) => o.2.len() > 0,
        None => false,
    }
}

/// How many paragraphs of a chapter get a translation with findings.
pub open spec fn issues_in(segments: Seq<BookSegmentModel>, outcomes: Seq<(Seq<char>, Seq<char>, Seq<Seq<char>>)>) -> nat
    decreases segments.len(),
{
    if segments.len() == 0 {
        0
    } else {
        issues_in(segments.drop_last(), outcomes) + if raises_issue(segments.last(), outcomes) {
            1nat
        } else {
            0nat
        }
    }
}

/// How many paragraphs of a book get a translation with findings.
pub open spec fn book_issues(chapters: Seq<BookChapterModel>, outcomes: Seq<(Seq<char>, Seq<char>, Seq<Seq<char>>)>) -> nat
    decreases chapters.len(),
{
    if chapters.len() == 0 {
        0
    } else {
        book_issues(chapters.drop_last(), outcomes) + issues_in(chapters.last().segments, outcomes)
    }
}

/// A chapter after a run.
pub open spec fn applied_chapter(c: BookChapterModel, outcomes: Seq<(Seq<char>, Seq<char>, Seq<Seq<char>>)>) -> BookChapterModel {
    BookChapterModel {
        segments: c.segments.map_values(|s: BookSegmentModel| applied_segment(s, outcomes)),
        ..c
    }
}

fn find_outcome(outcomes: &Vec<BookTranslation>, id: &str) -> (r: Option<usize>)
    ensures
        match r {
            Some(k) => k < outcomes.len() && outcome_for(outcome_models(outcomes@), id@, 0) == Some(
                outcome_models(outcomes@)[k as int],
            ),
            None => outcome_for(outcome_models(outcomes@), id@, 0) is None,
        },
{
    let ghost all = outcome_models(outcomes@);
    let mut i: usize = 0;
    while i < outcomes.len()
        invariant
            i <= outcomes.len(),
            all == outcome_models(outcomes@),
            outcome_for(all, id@, 0) == outcome_for(all, id@, i as int),
        decreases outcomes.len() - i,
    {
        if str_equal(outcomes[i].segment_id.as_str(), id) {
            return Some(i);
        }
        i = i + 1;
    }
    None
}

fn join_codes(parts: &Vec<String>) -> (r: String)
    ensures
        r@ == joined_with(string_texts(parts@), "、"@),
{
    let ghost ps = string_texts(parts@);
    let mut out = String::new();
    let mut i: usize = 0;
    assert(ps.take(0) =~= Seq::<Seq<char>>::empty());
    while i < parts.len()
        invariant
            i <= parts.len(),
            ps == string_texts(parts@),
            out@ == joined_with(ps.take(i as int), "、"@),
        decreases parts.len() - i,
    {
        assert(ps.take(i + 1).drop_last() =~= ps.take(i as int));
        assert(ps.take(i + 1).last() == parts@[i as int]@);
        if i > 0 {
            push_str(&mut out, "、");
        } else {
            assert(ps.take(1) =~= seq![parts@[0]@]);
        }
        push_str(&mut out, parts[i].as_str());
        i = i + 1;
    }
    assert(ps.take(parts.len() as int) =~= ps);
    out
}

fn copy_segment(s: &BookSegment) -> (r: BookSegment)
    ensures
        r@ == s@,
{
    BookSegment {
        id: owned(s.id.as_str()),
        source: owned(s.source.as_str()),
        translation: owned(s.translation.as_str()),
        status: s.status,
        qa_note: match &s.qa_note {
            Some(n) => Some(owned(n.as_str())),
            None => None,
        },
        terms: copy_strings(&s.terms),
    }
}

fn apply_to_segment(s: &BookSegment, outcomes: &Vec<BookTranslation>) -> (r: (BookSegment, bool))
    ensures
        r.0@ == applied_segment(s@, outcome_models(outcomes@)),
        r.1 == raises_issue(s@, outcome_models(outcomes@)),
{
    match find_outcome(outcomes, s.id.as_str()) {
        None => (copy_segment(s), false),
        Some(k) => {
            let o = &outcomes[k];
            let base = copy_segment(s);
            if o.findings.len() == 0 {
                (
                    BookSegment {
                        translation: owned(o.translation.as_str()),
                        status: SegmentStatus::Draft,
                        qa_note: None,
                        ..base
                    },
                    false,
                )
            } else {
                let note = join_codes(&o.findings);
                (
                    BookSegment {
                        translation: owned(o.translation.as_str()),
                        status: SegmentStatus::Issue,
                        qa_note: Some(note),
                        ..base
                    },
                    true,
                )
            }
        },
    }
}

fn apply_to_chapter(c: &BookChapter, outcomes: &Vec<BookTranslation>) -> (r: (BookChapter, usize))
    requires
        issues_in(book_segment_models(c.segments@), outcome_models(outcomes@)) <= c.segments.len(),
    ensures
        r.0@ == applied_chapter(c@, outcome_models(outcomes@)),
        r.1 == issues_in(book_segment_models(c.segments@), outcome_models(outcomes@)),
{
    let ghost models = book_segment_models(c.segments@);
    let ghost os = outcome_models(outcomes@);
    let mut segments: Vec<BookSegment> = Vec::new();
    let mut issues: usize = 0;
    let mut j: usize = 0;
    assert(models.take(0) =~= Seq::<BookSegmentModel>::empty());
    while j < c.segments.len()
        invariant
            j <= c.segments.len(),
            models == book_segment_models(c.segments@),
            os == outcome_models(outcomes@),
            book_segment_models(segments@) == models.take(j as int).map_values(
                |s: BookSegmentModel| applied_segment(s, os),
            ),
            issues == issues_in(models.take(j as int), os),
            issues <= j,
        decreases c.segments.len() - j,
    {
        assert(models.take(j + 1).drop_last() =~= models.take(j as int));
        assert(models.take(j + 1).last() == c.segments@[j as int]@);
        let (s, issue) = apply_to_segment(&c.segments[j], outcomes);
        let ghost before = segments@;
        segments.push(s);
        if issue {
            issues = issues + 1;
        }
        proof {
            assert(book_segment_models(segments@) =~= book_segment_models(before).push(s@));
            assert(models.take(j + 1).map_values(|s: BookSegmentModel| applied_segment(s, os))
                =~= models.take(j as int).map_values(|s: BookSegmentModel| applied_segment(s, os)).push(
                applied_segment(models[j as int], os),
            ));
        }
        j = j + 1;
    }
    assert(models.take(c.segments.len() as int) =~= models);
    (BookChapter { id: owned(c.id.as_str()), title: owned(c.title.as_str()), segments }, issues)
}

proof fn lemma_issues_bound(segments: Seq<BookSegmentModel>, outcomes: Seq<(Seq<char>, Seq<char>, Seq<Seq<char>>)>)
    ensures
        issues_in(segments, outcomes) <= segments.len(),
    decreases segments.len(),
{
    if segments.len() > 0 {
        lemma_issues_bound(segments.drop_last(), outcomes);
    }
}

/// A count, held at `u64::MAX` when it is larger.
pub open spec fn capped(n: nat) -> int {
    if n <= u64::MAX {
        n as int
    } else {
        u64::MAX as int
    }
}

/// The book after a run: every paragraph that got a translation holds it, as
/// a draft or, with quality findings, as an issue; the source and target
/// languages are those of the run. Returns how many paragraphs became issues
/// (held at `u64::MAX`).
pub fn apply_translations(
    project: &mut BookProject,
    outcomes: &Vec<BookTranslation>,
    source_language: &str,
    target_language: &str,
) -> (r: u64)
    ensures
        final(project)@ == (BookProjectModel {
            chapters: old(project)@.chapters.map_values(
                |c: BookChapterModel| applied_chapter(c, outcome_models(outcomes@)),
            ),
            source_language: source_language@,
            target_language: target_language@,
            ..old(project)@
        }),
        r as int == capped(book_issues(old(project)@.chapters, outcome_models(outcomes@))),
{
    let ghost models = chapter_models(project.chapters@);
    let ghost os = outcome_models(outcomes@);
    let mut chapters: Vec<BookChapter> = Vec::new();
    let mut issues: u64 = 0;
    let mut i: usize = 0;
    assert(models.take(0) =~= Seq::<BookChapterModel>::empty());
    while i < project.chapters.len()
        invariant
            i <= project.chapters.len(),
            models == chapter_models(project.chapters@),
            os == outcome_models(outcomes@),
            chapter_models(chapters@) == models.take(i as int).map_values(
                |c: BookChapterModel| applied_chapter(c, os),
            ),
            issues as int == capped(book_issues(models.take(i as int), os)),
        decreases project.chapters.len() - i,
    {
        assert(models.take(i + 1).drop_last() =~= models.take(i as int));
        assert(models.take(i + 1).last() == project.chapters@[i as int]@);
        proof {
            lemma_issues_bound(book_segment_models(project.chapters@[i as int].segments@), os);
        }
        let (c, n) = apply_to_chapter(&project.chapters[i], outcomes);
        let ghost before = chapters@;
        chapters.push(c);
        issues = issues.saturating_add(n as u64);
        proof {
            assert(chapter_models(chapters@) =~= chapter_models(before).push(c@));
            assert(models.take(i + 1).map_values(|c: BookChapterModel| applied_chapter(c, os))
                =~= models.take(i as int).map_values(|c: BookChapterModel| applied_chapter(c, os)).push(
                applied_chapter(models[i as int], os),
            ));
        }
        i = i + 1;
    }
    assert(models.take(project.chapters.len() as int) =~= models);
    project.chapters = chapters;
    project.source_language = owned(source_language);
    project.target_language = owned(target_language);
    issues
}


// ---------------------------------------------------------------------------
// Exports and their history
// ---------------------------------------------------------------------------
/// Mathematical model of a [`BookExportRecord`].
pub struct RecordModel {
    pub id: Seq<char>,
    pub project_id: Seq<char>,
    pub book_title: Seq<char>,
    pub format: BookExportFormat,
    pub output_path: Seq<char>,
    pub target_language: Seq<char>,
    pub exported_at_unix_ms: u64,
    pub profile: BookExportProfile,
}

impl View for BookExportRecord {
    type V = RecordModel;

    open spec fn view(&self) -> RecordModel {
        RecordModel {
            id: self.id@,
            project_id: self.project_id@,
            book_title: self.book_title@,
            format: self.format,
            output_path: self.output_path@,
            target_language: self.target_language@,
            exported_at_unix_ms: self.exported_at_unix_ms,
            profile: self.profile,
        }
    }
}

/// The models of export records.
pub open spec fn record_models(v: Seq<BookExportRecord>) -> Seq<RecordModel> {
    v.map_values(|r: BookExportRecord| r@)
}

/// The first position at or after `i` whose record is older than `time`.
pub open spec fn first_older(s: Seq<RecordModel>, time: u64, i: int) -> int
    decreases s.len() - i,
{
    if i < 0 || i >= s.len() {
        s.len() as int
    } else if s[i].exported_at_unix_ms < time {
        i
    } else {
        first_older(s, time, i + 1)
    }
}

/// Records ordered newest first, records of the same moment kept in the order
/// they were given (a stable sort on the export time, descending).
pub open spec fn newest_first_order(s: Seq<RecordModel>) -> Seq<RecordModel>
    decreases s.len(),
{
    if s.len() == 0 {
        Seq::empty()
    } else {
        let prev = newest_first_order(s.drop_last());
        prev.insert(first_older(prev, s.last().exported_at_unix_ms, 0), s.last())
    }
}

/// The records of one project (all records for `None`), in order.
pub open spec fn records_of(s: Seq<RecordModel>, project_id: Option<Seq<char>>) -> Seq<RecordModel>
    decreases s.len(),
{
    if s.len() == 0 {
        Seq::empty()
    } else {
        let prev = records_of(s.drop_last(), project_id);
        match project_id {
            Some(id) => if s.last().project_id == id {
                prev.push(s.last())
            } else {
                prev
            },
            None => prev.push(s.last()),
        }
    }
}

/// How many export records are kept.
pub open spec fn history_limit() -> nat {
    200
}

/// The stored history after recording one more export: newest first, at most
/// the limit kept.
pub open spec fn appended_history(stored: Seq<RecordModel>, record: RecordModel) -> Seq<RecordModel> {
    let all = newest_first_order(newest_first_order(stored).push(record));
    if all.len() > history_limit() {
        all.take(history_limit() as int)
    } else {
        all
    }
}

proof fn lemma_first_older(s: Seq<RecordModel>, time: u64, i: int)
    requires
        0 <= i <= s.len(),
    ensures
        i <= first_older(s, time, i) <= s.len(),
    decreases s.len() - i,
{
    if i < s.len() && s[i].exported_at_unix_ms >= time {
        lemma_first_older(s, time, i + 1);
    }
}

proof fn lemma_sorted_len(s: Seq<RecordModel>)
    ensures
        newest_first_order(s).len() == s.len(),
    decreases s.len(),
{
    if s.len() > 0 {
        lemma_sorted_len(s.drop_last());
        let prev = newest_first_order(s.drop_last());
        lemma_first_older(prev, s.last().exported_at_unix_ms, 0);
    }
}

fn copy_record(r: &BookExportRecord) -> (c: BookExportRecord)
    ensures
        c@ == r@,
{
    BookExportRecord {
        id: owned(r.id.as_str()),
        project_id: owned(r.project_id.as_str()),
        book_title: owned(r.book_title.as_str()),
        format: r.format,
        output_path: owned(r.output_path.as_str()),
        target_language: owned(r.target_language.as_str()),
        exported_at_unix_ms: r.exported_at_unix_ms,
        profile: r.profile,
    }
}

fn first_older_exec(s: &Vec<BookExportRecord>, time: u64) -> (r: usize)
    ensures
        r as int == first_older(record_models(s@), time, 0),
        r <= s.len(),
{
    let ghost m = record_models(s@);
    let mut i: usize = 0;
    while i < s.len()
        invariant
            i <= s.len(),
            m == record_models(s@),
            first_older(m, time, 0) == first_older(m, time, i as int),
        decreases s.len() - i,
    {
        if s[i].exported_at_unix_ms < time {
            return i;
        }
        i = i + 1;
    }
    i
}

/// Records ordered newest first, ties kept in their given order.
pub fn newest_first(records: &Vec<BookExportRecord>) -> (r: Vec<BookExportRecord>)
    ensures
        record_models(r@) == newest_first_order(record_models(records@)),
{
    let ghost m = record_models(records@);
    let mut out: Vec<BookExportRecord> = Vec::new();
    let mut i: usize = 0;
    assert(m.take(0) =~= Seq::<RecordModel>::empty());
    assert(record_models(out@) =~= Seq::<RecordModel>::empty());
    while i < records.len()
        invariant
            i <= records.len(),
            m == record_models(records@),
            record_models(out@) == newest_first_order(m.take(i as int)),
        decreases records.len() - i,
    {
        assert(m.take(i + 1).drop_last() =~= m.take(i as int));
        assert(m.take(i + 1).last() == records@[i as int]@);
        let rec = copy_record(&records[i]);
        let p = first_older_exec(&out, rec.exported_at_unix_ms);
        let ghost before = out@;
        out.insert(p, rec);
        assert(record_models(out@) =~= record_models(before).insert(p as int, rec@));
        i = i + 1;
    }
    assert(m.take(records.len() as int) =~= m);
    out
}

/// The records of one project (all of them for `None`), in order.
pub fn filter_records(records: &Vec<BookExportRecord>, project_id: Option<&str>) -> (r: Vec<BookExportRecord>)
    ensures
        record_models(r@) == records_of(record_models(records@), opt_str(project_id)),
{
    let ghost m = record_models(records@);
    let mut out: Vec<BookExportRecord> = Vec::new();
    let mut i: usize = 0;
    assert(m.take(0) =~= Seq::<RecordModel>::empty());
    assert(record_models(out@) =~= Seq::<RecordModel>::empty());
    while i < records.len()
        invariant
            i <= records.len(),
            m == record_models(records@),
            record_models(out@) == records_of(m.take(i as int), opt_str(project_id)),
        decreases records.len() - i,
    {
        assert(m.take(i + 1).drop_last() =~= m.take(i as int));
        assert(m.take(i + 1).last() == records@[i as int]@);
        let keep = match project_id {
            Some(id) => str_equal(records[i].project_id.as_str(), id),
            None => true,
        };
        if keep {
            let rec = copy_record(&records[i]);
            let ghost before = out@;
            out.push(rec);
            assert(record_models(out@) =~= record_models(before).push(rec@));
        }
        i = i + 1;
    }
    assert(m.take(records.len() as int) =~= m);
    out
}

/// The export history shown for a project (or for all projects): its records,
/// newest first.
pub fn read_export_history(stored: &Vec<BookExportRecord>, project_id: Option<&str>) -> (r: Vec<BookExportRecord>)
    ensures
        record_models(r@) == newest_first_order(records_of(record_models(stored@), opt_str(project_id))),
{
    let kept = filter_records(stored, project_id);
    newest_first(&kept)
}

/// The history to store after an export: the stored records read newest
/// first, the new record added, all ordered newest first and cut to the limit.
pub fn append_export_history(stored: &Vec<BookExportRecord>, record: BookExportRecord) -> (r: Vec<BookExportRecord>)
    ensures
        record_models(r@) == appended_history(record_models(stored@), record@),
{
    let mut all = read_export_history(stored, None);
    proof {
        let m = record_models(stored@);
        assert forall|k: nat| k <= m.len() implies #[trigger] records_of(m.take(k as int), None) =~= m.take(k as int) by {
            lemma_records_all(m, k);
        }
        assert(m.take(m.len() as int) =~= m);
    }
    let ghost read = all@;
    all.push(record);
    assert(record_models(all@) =~= record_models(read).push(record@));
    let mut sorted = newest_first(&all);
    proof {
        lemma_sorted_len(record_models(all@));
    }
    if sorted.len() > 200 {
        sorted.truncate(200);
    }
    sorted
}

proof fn lemma_records_all(m: Seq<RecordModel>, k: nat)
    requires
        k <= m.len(),
    ensures
        records_of(m.take(k as int), None) =~= m.take(k as int),
    decreases k,
{
    if k > 0 {
        lemma_records_all(m, (k - 1) as nat);
        assert(m.take(k as int).drop_last() =~= m.take(k - 1));
    }
}

/// The file name suggested for an export: the book's safe file stem, its
/// target language and the format's extension.
pub open spec fn export_file_name(p: BookProjectModel, format: BookExportFormat) -> Seq<char> {
    file_stem_of(p.title) + "."@ + p.target_language + "."@ + export_extension(format)
}

/// The file name suggested for an export.
pub fn suggested_export_name(project: &BookProject, format: BookExportFormat) -> (r: String)
    ensures
        r@ == export_file_name(project@, format),
{
    let mut name = safe_file_stem(project.title.as_str());
    push_str(&mut name, ".");
    push_str(&mut name, project.target_language.as_str());
    push_str(&mut name, ".");
    push_str(&mut name, format.extension());
    name
}

/// What an export format is called in the save dialog.
pub open spec fn export_label_of(format: BookExportFormat) -> Seq<char> {
    match format {
        BookExportFormat::Markdown => "Markdown 书稿"@,
        BookExportFormat::Docx => "Word 出版稿"@,
        BookExportFormat::Epub => "EPUB 3 电子书"@,
        BookExportFormat::Pdf => "PDF 印刷稿"@,
    }
}

/// What an export format is called in the save dialog.
pub fn export_label(format: BookExportFormat) -> (r: &'static str)
    ensures
        r@ == export_label_of(format),
{
    match format {
        BookExportFormat::Markdown => "Markdown 书稿",
        BookExportFormat::Docx => "Word 出版稿",
        BookExportFormat::Epub => "EPUB 3 电子书",
        BookExportFormat::Pdf => "PDF 印刷稿",
    }
}

/// The record of a finished export.
pub fn export_record(
    project: &BookProject,
    format: BookExportFormat,
    output_path: &str,
    exported_at_unix_ms: u64,
    profile: BookExportProfile,
) -> (r: BookExportRecord)
    ensures
        r@ == (RecordModel {
            id: project@.id + "-"@ + decimal(exported_at_unix_ms as nat),
            project_id: project@.id,
            book_title: project@.title,
            format,
            output_path: output_path@,
            target_language: project@.target_language,
            exported_at_unix_ms,
            profile,
        }),
{
    let mut id = owned(project.id.as_str());
    push_str(&mut id, "-");
    push_decimal(&mut id, exported_at_unix_ms);
    BookExportRecord {
        id,
        project_id: owned(project.id.as_str()),
        book_title: owned(project.title.as_str()),
        format,
        output_path: owned(output_path),
        target_language: owned(project.target_language.as_str()),
        exported_at_unix_ms,
        profile,
    }
}

// ---------------------------------------------------------------------------
// Listing projects
// ---------------------------------------------------------------------------
impl SortKey for BookProject {
    /// By title, character by character.
    open spec fn sort_key(&self) -> Seq<int> {
        text_key(self.title@, false)
    }

    fn goes_before(&self, other: &Self) -> (r: bool) {
        text_before(self.title.as_str(), other.title.as_str(), false)
    }
}

/// The projects of the library, the same ones, ordered by title; projects
/// with the same title keep their order.
pub fn projects_by_title(projects: Vec<BookProject>) -> (r: Vec<BookProject>)
    ensures
        r@.to_multiset() == projects@.to_multiset(),
        sorted_by_key(r@),
        forall|k: Seq<int>| #[trigger] with_key(r@, k) == with_key(projects@, k),
{
    sort_by_key(projects)
}

} // verus!
