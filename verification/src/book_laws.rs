use crate::book::{
    blank_publication, book_text, book_title, built_chapter, built_project, filled_chapters,
    format_of, grouped, lower_extension, BookChapterModel, BookFault, BookFormat, BookProjectModel,
    BookSegmentModel, PublicationModel, SegmentStatus,
};
use crate::book_import::{
    element_attribute, entry_text, manifest_entries, package_folder, parsed_book, plain_item,
    spine_chapters, spine_ids,
};
use crate::book_import::{body_texts, entry_path, manifest_href, spine_title};
use crate::book_text::{block_text, keep_nonempty, plain_blocks, split_on, unify_newlines};
use crate::book_xml::{document_blocks, scan_blocks, scan_step, XmlMode};
use crate::xml::{xml_tokens, XmlToken};
use crate::book_export::{
    base_take, grown_take, is_closing_mark, lemma_grown_take, lemma_line_take, line_take,
    lines_from, manuscript, markdown_chapters, markdown_manuscript, markdown_paragraphs,
};
use crate::book_workflow::{first_older, newest_first_order, records_of, RecordModel};
use vstd::prelude::*;

verus! {

// ---------------------------------------------------------------------------
// Export history
// ---------------------------------------------------------------------------
proof fn lemma_first_older_facts(s: Seq<RecordModel>, time: u64, i: int)
    requires
        0 <= i <= s.len(),
    ensures
        i <= first_older(s, time, i) <= s.len(),
        forall|k: int| i <= k < first_older(s, time, i) ==> s[k].exported_at_unix_ms >= time,
        first_older(s, time, i) < s.len() ==> s[first_older(s, time, i)].exported_at_unix_ms < time,
    decreases s.len() - i,
{
    if i < s.len() && s[i].exported_at_unix_ms >= time {
        lemma_first_older_facts(s, time, i + 1);
    }
}

/// Whether records are ordered newest first.
pub open spec fn is_newest_first(s: Seq<RecordModel>) -> bool {
    forall|i: int, j: int|
        0 <= i < j < s.len() ==> #[trigger] s[i].exported_at_unix_ms >= #[trigger] s[j].exported_at_unix_ms
}

/// The export history is shown newest first, and holds exactly the records it
/// was given (the same records, as many times each).
pub proof fn law_history_newest_first(s: Seq<RecordModel>)
    ensures
        is_newest_first(newest_first_order(s)),
        newest_first_order(s).to_multiset() == s.to_multiset(),
    decreases s.len(),
{
    broadcast use vstd::seq_lib::to_multiset_build, vstd::seq_lib::to_multiset_insert;

    if s.len() == 0 {
        assert(s =~= Seq::<RecordModel>::empty());
    } else {
        let prev = newest_first_order(s.drop_last());
        law_history_newest_first(s.drop_last());
        let x = s.last();
        let p = first_older(prev, x.exported_at_unix_ms, 0);
        lemma_first_older_facts(prev, x.exported_at_unix_ms, 0);
        let out = prev.insert(p, x);
        assert forall|i: int, j: int| 0 <= i < j < out.len() implies #[trigger] out[i].exported_at_unix_ms
            >= #[trigger] out[j].exported_at_unix_ms by {
            if j < p {
                assert(out[i] == prev[i] && out[j] == prev[j]);
            } else if j == p {
                assert(out[i] == prev[i]);
            } else if i < p {
                assert(out[i] == prev[i] && out[j] == prev[j - 1]);
                if i < j - 1 {
                } 
            } else if i == p {
                assert(out[j] == prev[j - 1]);
                assert(prev[p].exported_at_unix_ms < x.exported_at_unix_ms);
                if p < j - 1 {
                    assert(prev[p].exported_at_unix_ms >= prev[j - 1].exported_at_unix_ms);
                }
            } else {
                assert(out[i] == prev[i - 1] && out[j] == prev[j - 1]);
            }
        }
        assert(s =~= s.drop_last().push(x));
        assert(out.to_multiset() == prev.to_multiset().insert(x));
        assert(s.drop_last().push(x).to_multiset() == s.drop_last().to_multiset().insert(x));
    }
}

/// The history shown for a project holds only that project's records.
pub proof fn law_history_filters_by_project(s: Seq<RecordModel>, project_id: Seq<char>)
    ensures
        forall|i: int|
            0 <= i < records_of(s, Some(project_id)).len() ==> (#[trigger] records_of(
                s,
                Some(project_id),
            )[i]).project_id == project_id,
        forall|i: int|
            0 <= i < s.len() && s[i].project_id == project_id ==> records_of(s, Some(project_id)).contains(
                #[trigger] s[i],
            ),
    decreases s.len(),
{
    if s.len() > 0 {
        law_history_filters_by_project(s.drop_last(), project_id);
        let prev = records_of(s.drop_last(), Some(project_id));
        assert forall|i: int| 0 <= i < s.len() && s[i].project_id == project_id implies records_of(
            s,
            Some(project_id),
        ).contains(#[trigger] s[i]) by {
            if i < s.len() - 1 {
                assert(s.drop_last()[i] == s[i]);
                assert(prev.contains(s[i]));
                let k = choose|k: int| 0 <= k < prev.len() && prev[k] == s[i];
                if s.last().project_id == project_id {
                    assert(prev.push(s.last())[k] == s[i]);
                }
            } else {
                assert(records_of(s, Some(project_id)).last() == s[i]);
            }
        }
    }
}

// ---------------------------------------------------------------------------
// Printed lines
// ---------------------------------------------------------------------------
/// All lines written one after the other.
pub open spec fn concat_lines(lines: Seq<Seq<char>>) -> Seq<char>
    decreases lines.len(),
{
    if lines.len() == 0 {
        Seq::empty()
    } else {
        lines[0] + concat_lines(lines.drop_first())
    }
}

proof fn lemma_lines_from_concat(chars: Seq<char>, max: int, start: int)
    requires
        0 <= start <= chars.len(),
        max >= 1,
    ensures
        concat_lines(lines_from(chars, max, start)) == (if start == 0 && chars.len() > 0 {
            "　　"@
        } else {
            Seq::<char>::empty()
        }) + chars.skip(start),
    decreases chars.len() - start,
{
    if start < chars.len() {
        lemma_line_take(chars, start, max);
        let take = line_take(chars, start, max);
        lemma_lines_from_concat(chars, max, start + take);
        let lines = lines_from(chars, max, start);
        assert(lines.drop_first() == lines_from(chars, max, start + take));
        assert(chars.skip(start) =~= chars.subrange(start, start + take) + chars.skip(start + take));
    } else {
        assert(chars.skip(start) =~= Seq::<char>::empty());
    }
}

proof fn lemma_continuation_lines(chars: Seq<char>, max: int, start: int)
    requires
        0 <= start <= chars.len(),
        max >= 1,
        0 < start < chars.len() ==> !is_closing_mark(chars[start]),
    ensures
        forall|k: int|
            0 <= k < lines_from(chars, max, start).len() ==> (#[trigger] lines_from(chars, max, start)[k]).len() > 0,
        forall|k: int|
            0 < k < lines_from(chars, max, start).len() ==> !is_closing_mark(
                #[trigger] lines_from(chars, max, start)[k][0],
            ),
        start > 0 && lines_from(chars, max, start).len() > 0 ==> !is_closing_mark(
            lines_from(chars, max, start)[0][0],
        ),
    decreases chars.len() - start,
{
    if start < chars.len() {
        lemma_line_take(chars, start, max);
        let take = line_take(chars, start, max);
        lemma_grown_take_stops(chars, start, base_take(chars.len() - start, max));
        lemma_continuation_lines(chars, max, start + take);
        let lines = lines_from(chars, max, start);
        let rest = lines_from(chars, max, start + take);
        assert(lines == seq![lines[0]] + rest);
        assert forall|k: int| 0 < k < lines.len() implies !is_closing_mark(#[trigger] lines[k][0]) by {
            assert(lines[k] == rest[k - 1]);
            if k - 1 > 0 {
            } else {
                let s2 = start + take;
                lemma_line_take(chars, s2, max);
                assert(rest[0] == chars.subrange(s2, s2 + line_take(chars, s2, max)));
                assert(rest[0][0] == chars[start + take]);
            }
        }
        assert forall|k: int| 0 <= k < lines.len() implies (#[trigger] lines[k]).len() > 0 by {
            if k > 0 {
                assert(lines[k] == rest[k - 1]);
            }
        }
        if start > 0 {
            assert(lines[0][0] == chars[start]);
        }
    }
}

proof fn lemma_grown_take_stops(chars: Seq<char>, start: int, take: int)
    requires
        0 <= start,
        0 <= take,
        start + take <= chars.len(),
    ensures
        start + grown_take(chars, start, take) == chars.len() || !is_closing_mark(
            chars[start + grown_take(chars, start, take)],
        ),
    decreases chars.len() - start - take,
{
    if start + take < chars.len() && is_closing_mark(chars[start + take]) {
        lemma_grown_take_stops(chars, start, take + 1);
    }
}

/// Breaking a paragraph into printed lines loses and adds nothing but the
/// indent of its first line: written one after the other, the lines are the
/// indent followed by the paragraph.
pub proof fn law_wrapping_keeps_text(chars: Seq<char>, max: int)
    requires
        max >= 1,
        chars.len() > 0,
    ensures
        concat_lines(lines_from(chars, max, 0)) == "　　"@ + chars,
{
    lemma_lines_from_concat(chars, max, 0);
    assert(chars.skip(0) =~= chars);
}

/// No printed line is empty, and a continuation line never opens with closing
/// punctuation.
pub proof fn law_no_line_opens_with_closing_mark(chars: Seq<char>, max: int)
    requires
        max >= 1,
    ensures
        forall|k: int|
            0 <= k < lines_from(chars, max, 0).len() ==> (#[trigger] lines_from(chars, max, 0)[k]).len() > 0,
        forall|k: int|
            0 < k < lines_from(chars, max, 0).len() ==> !is_closing_mark(
                #[trigger] lines_from(chars, max, 0)[k][0],
            ),
{
    lemma_continuation_lines(chars, max, 0);
}

// ---------------------------------------------------------------------------
// Manuscripts
// ---------------------------------------------------------------------------
/// Whether `needle` occurs in `hay`.
pub open spec fn occurs_in(needle: Seq<char>, hay: Seq<char>) -> bool {
    exists|k: int| 0 <= k && k + needle.len() <= hay.len() && #[trigger] hay.subrange(k, k + needle.len()) == needle
}

proof fn lemma_occurs_left(needle: Seq<char>, a: Seq<char>, b: Seq<char>)
    requires
        occurs_in(needle, a),
    ensures
        occurs_in(needle, a + b),
{
    let k = choose|k: int| 0 <= k && k + needle.len() <= a.len() && #[trigger] a.subrange(k, k + needle.len()) == needle;
    assert((a + b).subrange(k, k + needle.len()) =~= a.subrange(k, k + needle.len()));
}

proof fn lemma_occurs_right(needle: Seq<char>, a: Seq<char>, b: Seq<char>)
    requires
        occurs_in(needle, b),
    ensures
        occurs_in(needle, a + b),
{
    let k = choose|k: int| 0 <= k && k + needle.len() <= b.len() && #[trigger] b.subrange(k, k + needle.len()) == needle;
    assert((a + b).subrange(a.len() + k, a.len() + k + needle.len()) =~= b.subrange(k, k + needle.len()));
}

proof fn lemma_occurs_self(t: Seq<char>)
    ensures
        occurs_in(t, t),
{
    assert(t.subrange(0, 0 + t.len() as int) =~= t);
}

proof fn lemma_paragraph_in_chapter(segments: Seq<BookSegmentModel>, j: int)
    requires
        0 <= j < segments.len(),
        manuscript(segments[j]).len() > 0,
    ensures
        occurs_in(manuscript(segments[j]), markdown_paragraphs(segments)),
    decreases segments.len(),
{
    let t = manuscript(segments[j]);
    if j == segments.len() - 1 {
        lemma_occurs_self(t);
        lemma_occurs_left(t, t, "\n\n"@);
        lemma_occurs_right(t, markdown_paragraphs(segments.drop_last()), t + "\n\n"@);
    } else {
        assert(segments.drop_last()[j] == segments[j]);
        lemma_paragraph_in_chapter(segments.drop_last(), j);
        let last = manuscript(segments.last());
        lemma_occurs_left(
            t,
            markdown_paragraphs(segments.drop_last()),
            if last.len() > 0 {
                last + "\n\n"@
            } else {
                Seq::empty()
            },
        );
    }
}

proof fn lemma_paragraph_in_chapters(chapters: Seq<BookChapterModel>, i: int, j: int)
    requires
        0 <= i < chapters.len(),
        0 <= j < chapters[i].segments.len(),
        manuscript(chapters[i].segments[j]).len() > 0,
    ensures
        occurs_in(manuscript(chapters[i].segments[j]), markdown_chapters(chapters)),
    decreases chapters.len(),
{
    let t = manuscript(chapters[i].segments[j]);
    let prev = markdown_chapters(chapters.drop_last());
    if i == chapters.len() - 1 {
        let c = chapters.last();
        lemma_paragraph_in_chapter(c.segments, j);
        let head = prev + "## "@ + crate::text::trim(c.title) + "\n\n"@;
        lemma_occurs_right(t, head, markdown_paragraphs(c.segments));
        assert(markdown_chapters(chapters) =~= head + markdown_paragraphs(c.segments));
    } else {
        assert(chapters.drop_last()[i] == chapters[i]);
        lemma_paragraph_in_chapters(chapters.drop_last(), i, j);
        let c = chapters.last();
        let tail = "## "@ + crate::text::trim(c.title) + "\n\n"@ + markdown_paragraphs(c.segments);
        lemma_occurs_left(t, prev, tail);
        assert(markdown_chapters(chapters) =~= prev + tail);
    }
}

/// The Markdown manuscript is complete: every paragraph of every chapter
/// appears in it, translated or, where untranslated, as its source text.
pub proof fn law_markdown_keeps_every_paragraph(p: BookProjectModel, i: int, j: int)
    requires
        0 <= i < p.chapters.len(),
        0 <= j < p.chapters[i].segments.len(),
        manuscript(p.chapters[i].segments[j]).len() > 0,
    ensures
        occurs_in(manuscript(p.chapters[i].segments[j]), markdown_manuscript(p)),
{
    lemma_paragraph_in_chapters(p.chapters, i, j);
    let t = manuscript(p.chapters[i].segments[j]);
    let m = p.publication;
    let head = "# "@ + crate::text::trim(p.title) + "\n\n"@ + crate::book_export::meta_line("作者"@, m.author)
        + crate::book_export::meta_line("译者"@, m.translator) + crate::book_export::meta_line(
        "出版社"@,
        m.publisher,
    ) + crate::book_export::meta_line("ISBN"@, m.isbn) + crate::book_export::meta_line(
        "版权"@,
        m.copyright,
    ) + if crate::book_export::has_front_matter(m) {
        "\n"@
    } else {
        Seq::empty()
    };
    lemma_occurs_right(t, head, markdown_chapters(p.chapters));
    assert(markdown_manuscript(p) =~= head + markdown_chapters(p.chapters));
}

// ---------------------------------------------------------------------------
// Imported books
// ---------------------------------------------------------------------------
proof fn lemma_filled_chapters(chs: Seq<(Seq<char>, Seq<Seq<char>>)>)
    ensures
        forall|i: int| 0 <= i < filled_chapters(chs).len() ==> (#[trigger] filled_chapters(chs)[i]).1.len() > 0,
    decreases chs.len(),
{
    if chs.len() > 0 {
        lemma_filled_chapters(chs.drop_last());
        let prev = filled_chapters(chs.drop_last());
        if chs.last().1.len() > 0 {
            assert forall|i: int| 0 <= i < prev.push(chs.last()).len() implies (#[trigger] prev.push(
                chs.last(),
            )[i]).1.len() > 0 by {
                if i < prev.len() {
                    assert(prev.push(chs.last())[i] == prev[i]);
                }
            }
        }
    }
}

/// An imported book has at least one chapter, and every chapter has at least
/// one paragraph.
pub proof fn law_imported_chapters_have_paragraphs(
    path: Seq<char>,
    format: BookFormat,
    chapters: Seq<(Seq<char>, Seq<Seq<char>>)>,
)
    ensures
        built_project(path, format, chapters) matches Ok(p) ==> p.chapters.len() > 0 && forall|i: int|
            0 <= i < p.chapters.len() ==> (#[trigger] p.chapters[i]).segments.len() > 0,
{
    lemma_filled_chapters(chapters);
    if let Ok(p) = built_project(path, format, chapters) {
        let kept = filled_chapters(chapters);
        assert forall|i: int| 0 <= i < p.chapters.len() implies (#[trigger] p.chapters[i]).segments.len() > 0 by {
            assert(p.chapters[i] == built_chapter(path, i as nat, kept[i]));
        }
    }
}


/// Whether no paragraph of the chapters reads as a Markdown heading.
pub open spec fn no_heading_paragraphs(chs: Seq<(Seq<char>, Seq<Seq<char>>)>) -> bool {
    forall|i: int, j: int|
        0 <= i < chs.len() && 0 <= j < chs[i].1.len() ==> #[trigger] crate::book_text::markdown_title(
            chs[i].1[j],
        ) is None
}

proof fn lemma_grouped_paragraphs(items: Seq<(bool, Seq<char>)>)
    requires
        forall|k: int| 0 <= k < items.len() && !items[k].0 ==> #[trigger] crate::book_text::markdown_title(items[k].1) is None,
    ensures
        no_heading_paragraphs(crate::book::grouped(items)),
    decreases items.len(),
{
    if items.len() > 0 {
        let prev = crate::book::grouped(items.drop_last());
        assert forall|k: int| 0 <= k < items.drop_last().len() && !items.drop_last()[k].0 implies #[trigger] crate::book_text::markdown_title(
            items.drop_last()[k].1,
        ) is None by {
            assert(items.drop_last()[k] == items[k]);
        }
        lemma_grouped_paragraphs(items.drop_last());
        let item = items.last();
        let g = crate::book::grouped(items);
        if item.0 {
            assert forall|i: int, j: int| 0 <= i < g.len() && 0 <= j < g[i].1.len() implies #[trigger] crate::book_text::markdown_title(
                g[i].1[j],
            ) is None by {
                if i < prev.len() {
                    assert(g[i] == prev[i]);
                }
            }
        } else {
            let base = if prev.len() == 0 {
                seq![(crate::book::body_title(), Seq::<Seq<char>>::empty())]
            } else {
                prev
            };
            assert(no_heading_paragraphs(base));
            assert(crate::book_text::markdown_title(items[items.len() - 1].1) is None);
            assert forall|i: int, j: int| 0 <= i < g.len() && 0 <= j < g[i].1.len() implies #[trigger] crate::book_text::markdown_title(
                g[i].1[j],
            ) is None by {
                if i < base.len() - 1 {
                    assert(g[i] == base[i]);
                } else {
                    assert(g[i].1 == base.last().1.push(item.1));
                    if j < base.last().1.len() {
                        assert(g[i].1[j] == base[base.len() - 1].1[j]);
                    }
                }
            }
        }
    }
}

proof fn lemma_filled_keeps_paragraphs(chs: Seq<(Seq<char>, Seq<Seq<char>>)>)
    requires
        no_heading_paragraphs(chs),
    ensures
        no_heading_paragraphs(filled_chapters(chs)),
    decreases chs.len(),
{
    if chs.len() > 0 {
        assert forall|i: int, j: int| 0 <= i < chs.drop_last().len() && 0 <= j < chs.drop_last()[i].1.len() implies #[trigger] crate::book_text::markdown_title(
            chs.drop_last()[i].1[j],
        ) is None by {
            assert(chs.drop_last()[i] == chs[i]);
        }
        lemma_filled_keeps_paragraphs(chs.drop_last());
        let prev = filled_chapters(chs.drop_last());
        if chs.last().1.len() > 0 {
            let f = prev.push(chs.last());
            assert forall|i: int, j: int| 0 <= i < f.len() && 0 <= j < f[i].1.len() implies #[trigger] crate::book_text::markdown_title(
                f[i].1[j],
            ) is None by {
                if i < prev.len() {
                    assert(f[i] == prev[i]);
                } else {
                    assert(f[i] == chs[chs.len() - 1]);
                }
            }
        }
    }
}

/// Markdown headings open chapters and are never imported as paragraphs: no
/// paragraph of an imported Markdown book reads as a heading.
pub proof fn law_markdown_headings_are_not_paragraphs(
    path: Seq<char>,
    content: Result<Seq<u8>, Seq<char>>,
)
    ensures
        crate::book_import::plain_book(path, BookFormat::Markdown, content) matches Ok(p) ==> forall|i: int, j: int|
            0 <= i < p.chapters.len() && 0 <= j < p.chapters[i].segments.len()
                ==> #[trigger] crate::book_text::markdown_title(p.chapters[i].segments[j].source) is None,
{
    if let Ok(bytes) = content {
        if let Ok(text) = crate::book::book_text(bytes) {
            let items = crate::book_text::plain_blocks(text).map_values(
                |b: Seq<char>| crate::book_import::plain_item(BookFormat::Markdown, b),
            );
            assert forall|k: int| 0 <= k < items.len() && !items[k].0 implies #[trigger] crate::book_text::markdown_title(
                items[k].1,
            ) is None by {
                let b = crate::book_text::plain_blocks(text)[k];
                assert(items[k] == crate::book_import::plain_item(BookFormat::Markdown, b));
            }
            lemma_grouped_paragraphs(items);
            let chs = crate::book::grouped(items);
            lemma_filled_keeps_paragraphs(chs);
            if let Ok(p) = built_project(path, BookFormat::Markdown, chs) {
                let kept = filled_chapters(chs);
                assert forall|i: int, j: int|
                    0 <= i < p.chapters.len() && 0 <= j < p.chapters[i].segments.len() implies #[trigger] crate::book_text::markdown_title(
                    p.chapters[i].segments[j].source,
                ) is None by {
                    assert(p.chapters[i] == built_chapter(path, i as nat, kept[i]));
                    assert(p.chapters[i].segments[j].source == kept[i].1[j]);
                }
            }
        }
    }
}

/// A run leaves every paragraph it has no translation for exactly as it was.
pub proof fn law_untranslated_paragraphs_stay(
    s: BookSegmentModel,
    outcomes: Seq<(Seq<char>, Seq<char>, Seq<Seq<char>>)>,
)
    requires
        crate::book_workflow::outcome_for(outcomes, s.id, 0) is None,
    ensures
        crate::book_workflow::applied_segment(s, outcomes) == s,
        !crate::book_workflow::raises_issue(s, outcomes),
{
}

// ---------------------------------------------------------------------------
// Imported books start fresh
// ---------------------------------------------------------------------------
/// Whether a project is as an import leaves it: read from `path`, titled after
/// its file name, from an unknown language into Simplified Chinese, with blank
/// publication details, at least one chapter, at least one paragraph in each,
/// and every paragraph holding some text, untranslated, without a note or terms.
pub open spec fn freshly_imported(p: BookProjectModel, path: Seq<char>) -> bool {
    &&& p.source_path == path
    &&& p.title == book_title(path)
    &&& p.source_language == "auto"@
    &&& p.target_language == "zh-CN"@
    &&& p.publication == blank_publication()
    &&& p.chapters.len() > 0
    &&& forall|i: int| 0 <= i < p.chapters.len() ==> (#[trigger] p.chapters[i]).segments.len() > 0
    &&& forall|i: int, j: int|
        0 <= i < p.chapters.len() && 0 <= j < p.chapters[i].segments.len() ==> {
            let s = #[trigger] p.chapters[i].segments[j];
            &&& s.source.len() > 0
            &&& s.translation == Seq::<char>::empty()
            &&& s.status == SegmentStatus::Untranslated
            &&& s.qa_note is None
            &&& s.terms == Seq::<Seq<char>>::empty()
        }
}

/// Whether every paragraph of the chapters has some text.
pub open spec fn paragraphs_filled(chs: Seq<(Seq<char>, Seq<Seq<char>>)>) -> bool {
    forall|i: int, j: int| 0 <= i < chs.len() && 0 <= j < chs[i].1.len() ==> (#[trigger] chs[i].1[j]).len() > 0
}

/// Whether every block (heading or paragraph) has some text.
pub open spec fn blocks_filled(blocks: Seq<(bool, Seq<char>)>) -> bool {
    forall|k: int| 0 <= k < blocks.len() ==> (#[trigger] blocks[k]).1.len() > 0
}

proof fn lemma_grouped_filled(items: Seq<(bool, Seq<char>)>)
    requires
        forall|k: int| 0 <= k < items.len() && !items[k].0 ==> (#[trigger] items[k]).1.len() > 0,
    ensures
        paragraphs_filled(grouped(items)),
    decreases items.len(),
{
    if items.len() > 0 {
        let prev = grouped(items.drop_last());
        assert forall|k: int| 0 <= k < items.drop_last().len() && !items.drop_last()[k].0 implies (
        #[trigger] items.drop_last()[k]).1.len() > 0 by {
            assert(items.drop_last()[k] == items[k]);
        }
        lemma_grouped_filled(items.drop_last());
        let item = items.last();
        let g = grouped(items);
        if item.0 {
            assert forall|i: int, j: int| 0 <= i < g.len() && 0 <= j < g[i].1.len() implies (
            #[trigger] g[i].1[j]).len() > 0 by {
                if i < prev.len() {
                    assert(g[i] == prev[i]);
                }
            }
        } else {
            let base = if prev.len() == 0 {
                seq![(crate::book::body_title(), Seq::<Seq<char>>::empty())]
            } else {
                prev
            };
            assert(paragraphs_filled(base));
            assert(items[items.len() - 1].1.len() > 0);
            assert forall|i: int, j: int| 0 <= i < g.len() && 0 <= j < g[i].1.len() implies (
            #[trigger] g[i].1[j]).len() > 0 by {
                if i < base.len() - 1 {
                    assert(g[i] == base[i]);
                } else {
                    assert(g[i].1 == base.last().1.push(item.1));
                    if j < base.last().1.len() {
                        assert(g[i].1[j] == base[base.len() - 1].1[j]);
                    }
                }
            }
        }
    }
}

proof fn lemma_filled_chapters_filled(chs: Seq<(Seq<char>, Seq<Seq<char>>)>)
    requires
        paragraphs_filled(chs),
    ensures
        paragraphs_filled(filled_chapters(chs)),
    decreases chs.len(),
{
    if chs.len() > 0 {
        assert forall|i: int, j: int| 0 <= i < chs.drop_last().len() && 0 <= j < chs.drop_last()[i].1.len() implies (
        #[trigger] chs.drop_last()[i].1[j]).len() > 0 by {
            assert(chs.drop_last()[i] == chs[i]);
        }
        lemma_filled_chapters_filled(chs.drop_last());
        let prev = filled_chapters(chs.drop_last());
        if chs.last().1.len() > 0 {
            let f = prev.push(chs.last());
            assert forall|i: int, j: int| 0 <= i < f.len() && 0 <= j < f[i].1.len() implies (
            #[trigger] f[i].1[j]).len() > 0 by {
                if i < prev.len() {
                    assert(f[i] == prev[i]);
                } else {
                    assert(f[i] == chs[chs.len() - 1]);
                }
            }
        }
    }
}

proof fn lemma_kept_nonempty(s: Seq<Seq<char>>)
    ensures
        forall|k: int| 0 <= k < keep_nonempty(s).len() ==> (#[trigger] keep_nonempty(s)[k]).len() > 0,
    decreases s.len(),
{
    if s.len() > 0 {
        lemma_kept_nonempty(s.drop_last());
        let prev = keep_nonempty(s.drop_last());
        if s.last().len() > 0 {
            assert forall|k: int| 0 <= k < keep_nonempty(s).len() implies (#[trigger] keep_nonempty(s)[k]).len() > 0 by {
                if k < prev.len() {
                    assert(keep_nonempty(s)[k] == prev[k]);
                }
            }
        }
    }
}

proof fn lemma_scan_filled(mode: XmlMode, tokens: Seq<XmlToken>)
    ensures
        scan_blocks(mode, tokens) matches Ok(st) ==> blocks_filled(st.blocks),
    decreases tokens.len(),
{
    if tokens.len() > 0 {
        lemma_scan_filled(mode, tokens.drop_last());
        if let Ok(prev) = scan_blocks(mode, tokens.drop_last()) {
            if let Ok(st) = scan_step(mode, prev, tokens.last()) {
                assert forall|k: int| 0 <= k < st.blocks.len() implies (#[trigger] st.blocks[k]).1.len() > 0 by {
                    if k < prev.blocks.len() {
                        assert(st.blocks == prev.blocks || st.blocks =~= prev.blocks.push(st.blocks.last()));
                    }
                }
            }
        }
    }
}

proof fn lemma_body_texts_filled(blocks: Seq<(bool, Seq<char>)>)
    requires
        blocks_filled(blocks),
    ensures
        forall|k: int| 0 <= k < body_texts(blocks).len() ==> (#[trigger] body_texts(blocks)[k]).len() > 0,
    decreases blocks.len(),
{
    if blocks.len() > 0 {
        assert(blocks_filled(blocks.drop_last())) by {
            assert forall|k: int| 0 <= k < blocks.drop_last().len() implies (#[trigger] blocks.drop_last()[k]).1.len() > 0 by {
                assert(blocks.drop_last()[k] == blocks[k]);
            }
        }
        lemma_body_texts_filled(blocks.drop_last());
        let prev = body_texts(blocks.drop_last());
        assert forall|k: int| 0 <= k < body_texts(blocks).len() implies (#[trigger] body_texts(blocks)[k]).len() > 0 by {
            if k < prev.len() {
                assert(body_texts(blocks)[k] == prev[k]);
            } else {
                assert(blocks[blocks.len() - 1].1.len() > 0);
            }
        }
    }
}

proof fn lemma_spine_filled(
    archive: Seq<u8>,
    folder: Seq<char>,
    manifest: Seq<(Seq<char>, Seq<char>)>,
    spine: Seq<Seq<char>>,
    n: nat,
)
    ensures
        spine_chapters(archive, folder, manifest, spine, n) matches Ok(chs) ==> paragraphs_filled(chs),
    decreases n,
{
    if n > 0 {
        lemma_spine_filled(archive, folder, manifest, spine, (n - 1) as nat);
        if let Ok(prev) = spine_chapters(archive, folder, manifest, spine, (n - 1) as nat) {
            if let Some(href) = manifest_href(manifest, spine[n - 1]) {
                if let Ok(xhtml) = entry_text(archive, entry_path(folder, href), "EPUB"@) {
                    lemma_scan_filled(XmlMode::Html, xml_tokens(xhtml, true));
                    if let Ok(blocks) = document_blocks(XmlMode::Html, xhtml) {
                        lemma_body_texts_filled(blocks);
                        let paragraphs = body_texts(blocks);
                        if paragraphs.len() > 0 {
                            let f = prev.push((spine_title(blocks, (n - 1) as nat), paragraphs));
                            assert forall|i: int, j: int| 0 <= i < f.len() && 0 <= j < f[i].1.len() implies (
                            #[trigger] f[i].1[j]).len() > 0 by {
                                if i < prev.len() {
                                    assert(f[i] == prev[i]);
                                }
                            }
                        }
                    }
                }
            }
        }
    }
}

proof fn lemma_plain_items_filled(text: Seq<char>, format: BookFormat)
    ensures
        paragraphs_filled(grouped(plain_blocks(text).map_values(|b: Seq<char>| plain_item(format, b)))),
{
    let blocks = plain_blocks(text);
    lemma_kept_nonempty(
        split_on(unify_newlines(text), "\n\n"@).map_values(|p: Seq<char>| block_text(p)),
    );
    let items = blocks.map_values(|b: Seq<char>| plain_item(format, b));
    assert forall|k: int| 0 <= k < items.len() && !items[k].0 implies (#[trigger] items[k]).1.len() > 0 by {
        assert(items[k] == plain_item(format, blocks[k]));
        assert(blocks[k].len() > 0);
    }
    lemma_grouped_filled(items);
}

proof fn lemma_built_is_fresh(path: Seq<char>, format: BookFormat, chapters: Seq<(Seq<char>, Seq<Seq<char>>)>)
    requires
        paragraphs_filled(chapters),
    ensures
        built_project(path, format, chapters) matches Ok(p) ==> freshly_imported(p, path),
{
    law_imported_chapters_have_paragraphs(path, format, chapters);
    lemma_filled_chapters_filled(chapters);
    if let Ok(p) = built_project(path, format, chapters) {
        let kept = filled_chapters(chapters);
        assert forall|i: int, j: int|
            0 <= i < p.chapters.len() && 0 <= j < p.chapters[i].segments.len() implies {
                let s = #[trigger] p.chapters[i].segments[j];
                &&& s.source.len() > 0
                &&& s.translation == Seq::<char>::empty()
                &&& s.status == SegmentStatus::Untranslated
                &&& s.qa_note is None
                &&& s.terms == Seq::<Seq<char>>::empty()
            } by {
            assert(p.chapters[i] == built_chapter(path, i as nat, kept[i]));
            assert(p.chapters[i].segments[j].source == kept[i].1[j]);
        }
    }
}

/// Whatever the format, an imported book starts fresh: it is titled after its
/// file, goes from an unknown language into Simplified Chinese, has blank
/// publication details, at least one chapter with at least one paragraph in
/// each, and every paragraph holds some text and is untranslated, without a
/// note or terms.
pub proof fn law_imported_book_is_fresh(path: Seq<char>, content: Result<Seq<u8>, Seq<char>>)
    ensures
        parsed_book(path, content) matches Ok(p) ==> freshly_imported(p, path),
{
    match format_of(lower_extension(path)) {
        None => {},
        Some(BookFormat::Txt) => {
            if let Ok(bytes) = content {
                if let Ok(text) = book_text(bytes) {
                    lemma_plain_items_filled(text, BookFormat::Txt);
                    lemma_built_is_fresh(path, BookFormat::Txt, grouped(plain_blocks(text).map_values(
                        |b: Seq<char>| plain_item(BookFormat::Txt, b),
                    )));
                }
            }
        },
        Some(BookFormat::Markdown) => {
            if let Ok(bytes) = content {
                if let Ok(text) = book_text(bytes) {
                    lemma_plain_items_filled(text, BookFormat::Markdown);
                    lemma_built_is_fresh(path, BookFormat::Markdown, grouped(plain_blocks(text).map_values(
                        |b: Seq<char>| plain_item(BookFormat::Markdown, b),
                    )));
                }
            }
        },
        Some(BookFormat::Docx) => {
            if let Ok(bytes) = content {
                if let Ok(xml) = entry_text(bytes, "word/document.xml"@, "DOCX"@) {
                    lemma_scan_filled(XmlMode::Docx, xml_tokens(xml, true));
                    if let Ok(blocks) = document_blocks(XmlMode::Docx, xml) {
                        lemma_grouped_filled(blocks);
                        lemma_built_is_fresh(path, BookFormat::Docx, grouped(blocks));
                    }
                }
            }
        },
        Some(BookFormat::Epub) => {
            if let Ok(p) = parsed_book(path, content) {
                let bytes = content->Ok_0;
                let container = entry_text(bytes, "META-INF/container.xml"@, "EPUB"@)->Ok_0;
                let root = element_attribute(xml_tokens(container, false), "rootfile"@, "full-path"@)->Some_0;
                let package = entry_text(bytes, root, "EPUB"@)->Ok_0;
                let tokens = xml_tokens(package, false);
                let spine = spine_ids(tokens);
                let chapters = spine_chapters(
                    bytes,
                    package_folder(root),
                    manifest_entries(tokens),
                    spine,
                    spine.len(),
                )->Ok_0;
                lemma_spine_filled(bytes, package_folder(root), manifest_entries(tokens), spine, spine.len());
                lemma_built_is_fresh(path, BookFormat::Epub, chapters);
            }
        },
    }
}

// ---------------------------------------------------------------------------
// Plain-text headings
// ---------------------------------------------------------------------------
proof fn lemma_has_char_at(s: Seq<char>, c: char, k: int)
    requires
        0 <= k < s.len(),
        s[k] == c,
    ensures
        crate::book_text::has_char(s, c),
{
    crate::text::lemma_find_char(s, c, 0);
}

proof fn lemma_has_char_means(s: Seq<char>, c: char)
    ensures
        crate::book_text::has_char(s, c) <==> exists|k: int| 0 <= k < s.len() && s[k] == c,
{
    crate::text::lemma_find_char(s, c, 0);
    if exists|k: int| 0 <= k < s.len() && s[k] == c {
        let k = choose|k: int| 0 <= k < s.len() && s[k] == c;
        lemma_has_char_at(s, c, k);
    }
}

/// A Chinese chapter heading of a TXT book: a block of one line, at most 80
/// characters long, that opens with `第` and holds `章`, `节`, `卷`, `部` or `篇`
/// anywhere, is read as a heading, and the book opens a chapter titled with the
/// block trimmed.
pub proof fn law_chinese_txt_heading(block: Seq<char>, k: int)
    requires
        block.len() <= 80,
        forall|i: int| 0 <= i < block.len() ==> block[i] != '\n',
        block.len() > 0,
        block[0] == '第',
        0 <= k < block.len(),
        block[k] == '章' || block[k] == '节' || block[k] == '卷' || block[k] == '部' || block[k] == '篇',
    ensures
        crate::book_text::txt_title(block) == Some(crate::text::trim(block)),
        plain_item(BookFormat::Txt, block) == (true, crate::text::trim(block)),
{
    lemma_has_char_means(block, '\n');
    lemma_has_char_at(block, block[k], k);
}

/// A block of a TXT book is a heading only when it is one line of at most 80
/// characters that opens with `第` and holds `章`, `节`, `卷`, `部` or `篇`, or
/// opens with `chapter `, `part ` or `book ` in any ASCII case; its title is
/// the block trimmed.
pub proof fn law_txt_headings_only(block: Seq<char>)
    ensures
        crate::book_text::txt_title(block) matches Some(t) ==> {
            &&& t == crate::text::trim(block)
            &&& block.len() <= 80
            &&& forall|i: int| 0 <= i < block.len() ==> block[i] != '\n'
            &&& (block.len() > 0 && block[0] == '第' && exists|k: int|
                0 <= k < block.len() && (block[k] == '章' || block[k] == '节' || block[k] == '卷'
                    || block[k] == '部' || block[k] == '篇'))
                || crate::renpy::starts_with(crate::book_text::lower_ascii(block), "chapter "@)
                || crate::renpy::starts_with(crate::book_text::lower_ascii(block), "part "@)
                || crate::renpy::starts_with(crate::book_text::lower_ascii(block), "book "@)
        },
{
    lemma_has_char_means(block, '\n');
    lemma_has_char_means(block, '章');
    lemma_has_char_means(block, '节');
    lemma_has_char_means(block, '卷');
    lemma_has_char_means(block, '部');
    lemma_has_char_means(block, '篇');
}

// ---------------------------------------------------------------------------
// Markdown front matter
// ---------------------------------------------------------------------------
/// The front-matter fields of a publication in the order a manuscript lists
/// them, each as `(label, value)`.
pub open spec fn front_fields(m: PublicationModel) -> Seq<(Seq<char>, Seq<char>)> {
    seq![
        ("作者"@, m.author),
        ("译者"@, m.translator),
        ("出版社"@, m.publisher),
        ("ISBN"@, m.isbn),
        ("版权"@, m.copyright),
    ]
}

/// A `label：value` line, with its Markdown line break.
pub open spec fn labelled_line(field: (Seq<char>, Seq<char>)) -> Seq<char> {
    field.0 + "："@ + crate::text::trim(field.1) + "  \n"@
}

/// The lines of the filled-in fields among `fields`, in order.
pub open spec fn filled_field_lines(fields: Seq<(Seq<char>, Seq<char>)>) -> Seq<char>
    decreases fields.len(),
{
    if fields.len() == 0 {
        Seq::empty()
    } else {
        filled_field_lines(fields.drop_last()) + if crate::text::all_space(fields.last().1) {
            Seq::<char>::empty()
        } else {
            labelled_line(fields.last())
        }
    }
}

proof fn lemma_filled_line_occurs(fields: Seq<(Seq<char>, Seq<char>)>, i: int)
    requires
        0 <= i < fields.len(),
        !crate::text::all_space(fields[i].1),
    ensures
        occurs_in(labelled_line(fields[i]), filled_field_lines(fields)),
    decreases fields.len(),
{
    let last = if crate::text::all_space(fields.last().1) {
        Seq::<char>::empty()
    } else {
        labelled_line(fields.last())
    };
    if i == fields.len() - 1 {
        lemma_occurs_self(labelled_line(fields[i]));
        lemma_occurs_right(labelled_line(fields[i]), filled_field_lines(fields.drop_last()), last);
    } else {
        assert(fields.drop_last()[i] == fields[i]);
        lemma_filled_line_occurs(fields.drop_last(), i);
        lemma_occurs_left(labelled_line(fields[i]), filled_field_lines(fields.drop_last()), last);
    }
}

/// A Markdown manuscript opens with its title heading, then one `label：value`
/// line for each filled-in field among author, translator, publisher, ISBN and
/// copyright, in that order (values trimmed, blank fields left out); so each
/// filled-in field's line is in the manuscript.
pub proof fn law_markdown_front_matter(p: BookProjectModel)
    ensures
        crate::renpy::starts_with(
            markdown_manuscript(p),
            "# "@ + crate::text::trim(p.title) + "\n\n"@ + filled_field_lines(front_fields(p.publication)),
        ),
        forall|i: int|
            0 <= i < 5 && !crate::text::all_space(#[trigger] front_fields(p.publication)[i].1)
                ==> occurs_in(labelled_line(front_fields(p.publication)[i]), markdown_manuscript(p)),
{
    let m = p.publication;
    let f = front_fields(m);
    reveal_with_fuel(filled_field_lines, 6);
    assert(f.drop_last().drop_last().drop_last().drop_last().drop_last() =~= Seq::<(Seq<char>, Seq<char>)>::empty());
    assert(f.drop_last().drop_last().drop_last().drop_last() =~= seq![f[0]]);
    assert(f.drop_last().drop_last().drop_last() =~= seq![f[0], f[1]]);
    assert(f.drop_last().drop_last() =~= seq![f[0], f[1], f[2]]);
    assert(f.drop_last() =~= seq![f[0], f[1], f[2], f[3]]);
    let lines = filled_field_lines(f);
    assert(lines =~= crate::book_export::meta_line("作者"@, m.author) + crate::book_export::meta_line(
        "译者"@,
        m.translator,
    ) + crate::book_export::meta_line("出版社"@, m.publisher) + crate::book_export::meta_line(
        "ISBN"@,
        m.isbn,
    ) + crate::book_export::meta_line("版权"@, m.copyright));
    let head = "# "@ + crate::text::trim(p.title) + "\n\n"@ + lines;
    let rest = if crate::book_export::has_front_matter(m) {
        "\n"@
    } else {
        Seq::<char>::empty()
    } + crate::book_export::markdown_chapters(p.chapters);
    assert(markdown_manuscript(p) =~= head + rest);
    assert((head + rest).take(head.len() as int) =~= head);
    assert forall|i: int|
        0 <= i < 5 && !crate::text::all_space(#[trigger] f[i].1) implies occurs_in(
        labelled_line(f[i]),
        markdown_manuscript(p),
    ) by {
        lemma_filled_line_occurs(f, i);
        lemma_occurs_right(labelled_line(f[i]), "# "@ + crate::text::trim(p.title) + "\n\n"@, lines);
        assert(head =~= ("# "@ + crate::text::trim(p.title) + "\n\n"@) + lines);
        lemma_occurs_left(labelled_line(f[i]), head, rest);
    }
}

} // verus!
