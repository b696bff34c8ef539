use crate::content::{SegmentKind, SegmentModel};
use crate::json::{json_field, json_int, json_items, json_text, member_index, JsonTree};
use crate::rpgmaker::{
    choice_segments, command_list_segments, command_scan, event_segments, list_of, list_path, map_segments,
    page_prefix, page_segments, path_steps, replace_outcome, translatable, tree_at, tree_replace,
    with_neighbors, StepModel,
};
use crate::text::decimal;
use vstd::prelude::*;

verus! {

/// Whether two step paths part ways: at some step they name different
/// members or items, after agreeing on every step before it.
pub open spec fn diverge(a: Seq<StepModel>, b: Seq<StepModel>) -> bool
    decreases a.len(),
{
    &&& a.len() > 0
    &&& b.len() > 0
    &&& (a[0] != b[0] || diverge(a.drop_first(), b.drop_first()))
}

/// Looking a member up depends only on the members' keys.
proof fn lemma_member_index_keys(
    ms: Seq<(Seq<char>, JsonTree)>,
    ns: Seq<(Seq<char>, JsonTree)>,
    key: Seq<char>,
    i: int,
)
    requires
        0 <= i,
        ms.len() == ns.len(),
        forall|j: int| 0 <= j < ms.len() ==> #[trigger] ms[j].0 == ns[j].0,
    ensures
        member_index(ms, key, i) == member_index(ns, key, i),
    decreases ms.len() - i,
{
    if i < ms.len() {
        lemma_member_index_keys(ms, ns, key, i + 1);
    }
}

proof fn lemma_member_index_found(ms: Seq<(Seq<char>, JsonTree)>, key: Seq<char>, i: int)
    requires
        0 <= i,
    ensures
        member_index(ms, key, i) matches Some(j) ==> i <= j < ms.len() && ms[j].0 == key,
    decreases ms.len() - i,
{
    if i < ms.len() {
        lemma_member_index_found(ms, key, i + 1);
    }
}

/// Replacing the text at the end of a path that exists, the path then reads
/// the new text.
proof fn lemma_replace_reads_back(t: JsonTree, steps: Seq<StepModel>, text: Seq<char>)
    requires
        tree_at(t, steps) is Some,
    ensures
        tree_at(tree_replace(t, steps, text), steps) == Some(JsonTree::Str(text)),
    decreases steps.len(),
{
    if steps.len() > 0 {
        let rest = steps.drop_first();
        match steps[0] {
            StepModel::Key(k) => {
                if let JsonTree::Object(ms) = t {
                    lemma_member_index_found(ms, k, 0);
                    let i = member_index(ms, k, 0)->Some_0;
                    lemma_replace_reads_back(ms[i].1, rest, text);
                    let ns = ms.update(i, (ms[i].0, tree_replace(ms[i].1, rest, text)));
                    lemma_member_index_keys(ms, ns, k, 0);
                }
            },
            StepModel::Index(n) => {
                if let JsonTree::Array(items) = t {
                    lemma_replace_reads_back(items[n as int], rest, text);
                }
            },
        }
    }
}

/// Replacing the text at the end of a path that exists leaves every path that
/// parts ways with it reading as before.
proof fn lemma_replace_keeps_others(
    t: JsonTree,
    steps: Seq<StepModel>,
    text: Seq<char>,
    other: Seq<StepModel>,
)
    requires
        tree_at(t, steps) is Some,
        diverge(steps, other),
    ensures
        tree_at(tree_replace(t, steps, text), other) == tree_at(t, other),
    decreases steps.len(),
{
    let rest = steps.drop_first();
    let orest = other.drop_first();
    match steps[0] {
        StepModel::Key(k) => {
            if let JsonTree::Object(ms) = t {
                lemma_member_index_found(ms, k, 0);
                let i = member_index(ms, k, 0)->Some_0;
                let ns = ms.update(i, (ms[i].0, tree_replace(ms[i].1, rest, text)));
                assert forall|j: int| 0 <= j < ms.len() implies #[trigger] ms[j].0 == ns[j].0 by {}
                match other[0] {
                    StepModel::Key(k2) => {
                        lemma_member_index_keys(ms, ns, k2, 0);
                        lemma_member_index_found(ms, k2, 0);
                        if k2 == k {
                            lemma_replace_keeps_others(ms[i].1, rest, text, orest);
                        }
                    },
                    StepModel::Index(_) => {},
                }
            }
        },
        StepModel::Index(n) => {
            if let JsonTree::Array(items) = t {
                match other[0] {
                    StepModel::Index(m) => {
                        if m == n {
                            lemma_replace_keeps_others(items[n as int], rest, text, orest);
                        }
                    },
                    StepModel::Key(_) => {},
                }
            }
        },
    }
}

/// Putting a translation in place at a location of an RPG Maker document
/// writes exactly there: the location then reads the translation, and every
/// location whose path parts ways with it reads as before.
pub proof fn law_translation_lands_only_at_its_location(
    t: JsonTree,
    location: Seq<char>,
    text: Seq<char>,
    other: Seq<char>,
)
    requires
        path_steps(location) is Some,
        path_steps(other) is Some,
        diverge(path_steps(location)->Some_0, path_steps(other)->Some_0),
    ensures
        replace_outcome(t, location, text) matches Ok(written) ==> {
            &&& tree_at(written, path_steps(location)->Some_0) == Some(JsonTree::Str(text))
            &&& tree_at(written, path_steps(other)->Some_0) == tree_at(t, path_steps(other)->Some_0)
        },
{
    let steps = path_steps(location)->Some_0;
    if tree_at(t, steps) is Some {
        lemma_replace_reads_back(t, steps, text);
        lemma_replace_keeps_others(t, steps, text, path_steps(other)->Some_0);
    }
}

// ---------------------------------------------------------------------------
// Map extraction
// ---------------------------------------------------------------------------
/// Whether `segs` holds a segment with this id, source text and kind.
pub open spec fn has_segment(segs: Seq<SegmentModel>, id: Seq<char>, source: Seq<char>, kind: SegmentKind) -> bool {
    exists|n: int| 0 <= n < segs.len() && (#[trigger] segs[n]).id == id && segs[n].source == source && segs[n].kind == kind
}

proof fn lemma_has_left(a: Seq<SegmentModel>, b: Seq<SegmentModel>, id: Seq<char>, source: Seq<char>, kind: SegmentKind)
    requires
        has_segment(a, id, source, kind),
    ensures
        has_segment(a + b, id, source, kind),
{
    let n = choose|n: int| 0 <= n < a.len() && (#[trigger] a[n]).id == id && a[n].source == source && a[n].kind == kind;
    assert((a + b)[n] == a[n]);
}

proof fn lemma_has_right(a: Seq<SegmentModel>, b: Seq<SegmentModel>, id: Seq<char>, source: Seq<char>, kind: SegmentKind)
    requires
        has_segment(b, id, source, kind),
    ensures
        has_segment(a + b, id, source, kind),
{
    let n = choose|n: int| 0 <= n < b.len() && (#[trigger] b[n]).id == id && b[n].source == source && b[n].kind == kind;
    assert((a + b)[a.len() + n] == b[n]);
}

proof fn lemma_scan_extends(
    file_name: Seq<char>,
    source_file: Seq<char>,
    id_prefix: Seq<char>,
    json_prefix: Seq<char>,
    commands: Seq<JsonTree>,
)
    requires
        commands.len() > 0,
    ensures
        ({
            let prev = command_scan(file_name, source_file, id_prefix, json_prefix, commands.drop_last()).1;
            let cur = command_scan(file_name, source_file, id_prefix, json_prefix, commands).1;
            prev.len() <= cur.len() && forall|n: int| 0 <= n < prev.len() ==> #[trigger] cur[n] == prev[n]
        }),
{
}

proof fn lemma_has_kept(
    file_name: Seq<char>,
    source_file: Seq<char>,
    id_prefix: Seq<char>,
    json_prefix: Seq<char>,
    commands: Seq<JsonTree>,
    id: Seq<char>,
    source: Seq<char>,
    kind: SegmentKind,
)
    requires
        commands.len() > 0,
        has_segment(
            command_scan(file_name, source_file, id_prefix, json_prefix, commands.drop_last()).1,
            id,
            source,
            kind,
        ),
    ensures
        has_segment(command_scan(file_name, source_file, id_prefix, json_prefix, commands).1, id, source, kind),
{
    lemma_scan_extends(file_name, source_file, id_prefix, json_prefix, commands);
    let prev = command_scan(file_name, source_file, id_prefix, json_prefix, commands.drop_last()).1;
    let cur = command_scan(file_name, source_file, id_prefix, json_prefix, commands).1;
    let n = choose|n: int| 0 <= n < prev.len() && (#[trigger] prev[n]).id == id && prev[n].source == source && prev[n].kind == kind;
    assert(cur[n] == prev[n]);
}

/// The text command `c` of a list: a "show text" line (401) or a scrolling
/// text line (405) whose first parameter is translatable text `t`.
pub open spec fn text_command(commands: Seq<JsonTree>, c: int, code: i64, t: Seq<char>) -> bool {
    &&& 0 <= c < commands.len()
    &&& code == 401 || code == 405
    &&& json_field(commands[c], "code"@) is Some
    &&& json_int(json_field(commands[c], "code"@)->Some_0) == Some(code)
    &&& list_of(commands[c], "parameters"@) is Some
    &&& list_of(commands[c], "parameters"@)->Some_0.len() > 0
    &&& json_text(list_of(commands[c], "parameters"@)->Some_0[0]) == Some(t)
    &&& translatable(t)
}

/// The choice `k` of command `c` of a list: a "show choices" command (102)
/// whose first parameter is an array with translatable text `t` at `k`.
pub open spec fn choice_command(commands: Seq<JsonTree>, c: int, k: int, t: Seq<char>) -> bool {
    &&& 0 <= c < commands.len()
    &&& json_field(commands[c], "code"@) is Some
    &&& json_int(json_field(commands[c], "code"@)->Some_0) == Some(102i64)
    &&& list_of(commands[c], "parameters"@) is Some
    &&& list_of(commands[c], "parameters"@)->Some_0.len() > 0
    &&& json_items(list_of(commands[c], "parameters"@)->Some_0[0]) is Some
    &&& 0 <= k < json_items(list_of(commands[c], "parameters"@)->Some_0[0])->Some_0.len()
    &&& json_text(json_items(list_of(commands[c], "parameters"@)->Some_0[0])->Some_0[k]) == Some(t)
    &&& translatable(t)
}

proof fn lemma_choices_have(
    file_name: Seq<char>,
    source_file: Seq<char>,
    id_path: Seq<char>,
    json_path: Seq<char>,
    speaker: Option<Seq<char>>,
    choices: Seq<JsonTree>,
    k: int,
    t: Seq<char>,
)
    requires
        0 <= k < choices.len(),
        json_text(choices[k]) == Some(t),
        translatable(t),
    ensures
        has_segment(
            choice_segments(file_name, source_file, id_path, json_path, speaker, choices),
            file_name + ":"@ + (id_path + ".parameters[0]["@ + decimal(k as nat) + "]"@),
            t,
            SegmentKind::Choice,
        ),
    decreases choices.len(),
{
    let id = file_name + ":"@ + (id_path + ".parameters[0]["@ + decimal(k as nat) + "]"@);
    let prev = choice_segments(file_name, source_file, id_path, json_path, speaker, choices.drop_last());
    let cur = choice_segments(file_name, source_file, id_path, json_path, speaker, choices);
    if k == choices.len() - 1 {
        assert(cur[cur.len() - 1].id == id);
    } else {
        assert(choices.drop_last()[k] == choices[k]);
        lemma_choices_have(file_name, source_file, id_path, json_path, speaker, choices.drop_last(), k, t);
        let n = choose|n: int| 0 <= n < prev.len() && (#[trigger] prev[n]).id == id && prev[n].source == t && prev[n].kind == SegmentKind::Choice;
        assert(cur[n] == prev[n]);
    }
}

proof fn lemma_scan_has_text(
    file_name: Seq<char>,
    source_file: Seq<char>,
    id_prefix: Seq<char>,
    json_prefix: Seq<char>,
    commands: Seq<JsonTree>,
    c: int,
    code: i64,
    t: Seq<char>,
)
    requires
        text_command(commands, c, code, t),
    ensures
        has_segment(
            command_scan(file_name, source_file, id_prefix, json_prefix, commands).1,
            file_name + ":"@ + list_path(id_prefix, c as nat),
            t,
            if code == 401 { SegmentKind::Dialogue } else { SegmentKind::ScrollingText },
        ),
    decreases commands.len(),
{
    let kind = if code == 401 { SegmentKind::Dialogue } else { SegmentKind::ScrollingText };
    let id = file_name + ":"@ + list_path(id_prefix, c as nat);
    if c == commands.len() - 1 {
        let cur = command_scan(file_name, source_file, id_prefix, json_prefix, commands).1;
        assert(cur[cur.len() - 1].id == id);
    } else {
        assert(commands.drop_last()[c] == commands[c]);
        lemma_scan_has_text(file_name, source_file, id_prefix, json_prefix, commands.drop_last(), c, code, t);
        lemma_has_kept(file_name, source_file, id_prefix, json_prefix, commands, id, t, kind);
    }
}

proof fn lemma_scan_has_choice(
    file_name: Seq<char>,
    source_file: Seq<char>,
    id_prefix: Seq<char>,
    json_prefix: Seq<char>,
    commands: Seq<JsonTree>,
    c: int,
    k: int,
    t: Seq<char>,
)
    requires
        choice_command(commands, c, k, t),
    ensures
        has_segment(
            command_scan(file_name, source_file, id_prefix, json_prefix, commands).1,
            file_name + ":"@ + (list_path(id_prefix, c as nat) + ".parameters[0]["@ + decimal(k as nat) + "]"@),
            t,
            SegmentKind::Choice,
        ),
    decreases commands.len(),
{
    let id = file_name + ":"@ + (list_path(id_prefix, c as nat) + ".parameters[0]["@ + decimal(k as nat) + "]"@);
    if c == commands.len() - 1 {
        let (speaker, prev) = command_scan(file_name, source_file, id_prefix, json_prefix, commands.drop_last());
        let params = list_of(commands[c], "parameters"@)->Some_0;
        let choices = json_items(params[0])->Some_0;
        let extra = choice_segments(
            file_name,
            source_file,
            list_path(id_prefix, c as nat),
            list_path(json_prefix, c as nat),
            speaker,
            choices,
        );
        lemma_choices_have(
            file_name,
            source_file,
            list_path(id_prefix, c as nat),
            list_path(json_prefix, c as nat),
            speaker,
            choices,
            k,
            t,
        );
        lemma_has_right(prev, extra, id, t, SegmentKind::Choice);
    } else {
        assert(commands.drop_last()[c] == commands[c]);
        lemma_scan_has_choice(file_name, source_file, id_prefix, json_prefix, commands.drop_last(), c, k, t);
        lemma_has_kept(file_name, source_file, id_prefix, json_prefix, commands, id, t, SegmentKind::Choice);
    }
}

proof fn lemma_neighbors_keep(segs: Seq<SegmentModel>, id: Seq<char>, source: Seq<char>, kind: SegmentKind)
    requires
        has_segment(segs, id, source, kind),
    ensures
        has_segment(with_neighbors(segs), id, source, kind),
{
    let n = choose|n: int| 0 <= n < segs.len() && (#[trigger] segs[n]).id == id && segs[n].source == source && segs[n].kind == kind;
    assert(with_neighbors(segs)[n].id == id);
}

/// The segments of page `p`'s command list end up among those of the event.
proof fn lemma_page_kept(
    file_name: Seq<char>,
    source_file: Seq<char>,
    event: nat,
    pages: Seq<JsonTree>,
    p: int,
    commands: Seq<JsonTree>,
    id: Seq<char>,
    source: Seq<char>,
    kind: SegmentKind,
)
    requires
        0 <= p < pages.len(),
        list_of(pages[p], "list"@) == Some(commands),
        has_segment(
            command_list_segments(
                file_name,
                source_file,
                page_prefix(event, p as nat),
                page_prefix(event, p as nat),
                commands,
            ),
            id,
            source,
            kind,
        ),
    ensures
        has_segment(page_segments(file_name, source_file, event, pages), id, source, kind),
    decreases pages.len(),
{
    let prev = page_segments(file_name, source_file, event, pages.drop_last());
    let last = match list_of(pages.last(), "list"@) {
        Some(cs) => command_list_segments(
            file_name,
            source_file,
            page_prefix(event, (pages.len() - 1) as nat),
            page_prefix(event, (pages.len() - 1) as nat),
            cs,
        ),
        None => Seq::empty(),
    };
    assert(page_segments(file_name, source_file, event, pages) == prev + last);
    if p == pages.len() - 1 {
        lemma_has_right(prev, last, id, source, kind);
    } else {
        assert(pages.drop_last()[p] == pages[p]);
        lemma_page_kept(file_name, source_file, event, pages.drop_last(), p, commands, id, source, kind);
        lemma_has_left(prev, last, id, source, kind);
    }
}

/// The segments of event `e`'s pages end up among those of the map.
proof fn lemma_event_kept(
    file_name: Seq<char>,
    source_file: Seq<char>,
    events: Seq<JsonTree>,
    e: int,
    pages: Seq<JsonTree>,
    id: Seq<char>,
    source: Seq<char>,
    kind: SegmentKind,
)
    requires
        0 <= e < events.len(),
        list_of(events[e], "pages"@) == Some(pages),
        has_segment(page_segments(file_name, source_file, e as nat, pages), id, source, kind),
    ensures
        has_segment(event_segments(file_name, source_file, events), id, source, kind),
    decreases events.len(),
{
    let prev = event_segments(file_name, source_file, events.drop_last());
    let last = match list_of(events.last(), "pages"@) {
        Some(ps) => page_segments(file_name, source_file, (events.len() - 1) as nat, ps),
        None => Seq::empty(),
    };
    assert(event_segments(file_name, source_file, events) == prev + last);
    if e == events.len() - 1 {
        lemma_has_right(prev, last, id, source, kind);
    } else {
        assert(events.drop_last()[e] == events[e]);
        lemma_event_kept(file_name, source_file, events.drop_last(), e, pages, id, source, kind);
        lemma_has_left(prev, last, id, source, kind);
    }
}

/// Whether `commands` is the command list of page `p` of event `e` of a map
/// document.
pub open spec fn page_commands(document: JsonTree, e: int, p: int, commands: Seq<JsonTree>) -> bool {
    &&& list_of(document, "events"@) is Some
    &&& 0 <= e < list_of(document, "events"@)->Some_0.len()
    &&& list_of(list_of(document, "events"@)->Some_0[e], "pages"@) is Some
    &&& 0 <= p < list_of(list_of(document, "events"@)->Some_0[e], "pages"@)->Some_0.len()
    &&& list_of(list_of(list_of(document, "events"@)->Some_0[e], "pages"@)->Some_0[p], "list"@) == Some(
        commands,
    )
}

/// Every page of every map event has its dialogue and scrolling text
/// extracted: for each "show text" (401) or scrolling text (405) command of the
/// command list of page `p` of event `e` whose first parameter is translatable
/// text, the map's segments hold one with the id
/// `<file>:events[e].pages[p].list[c]`, that text, and the kind Dialogue (401)
/// or ScrollingText (405).
pub proof fn law_every_page_text_extracted(
    file_name: Seq<char>,
    source_file: Seq<char>,
    document: JsonTree,
    e: int,
    p: int,
    commands: Seq<JsonTree>,
    c: int,
    code: i64,
    t: Seq<char>,
)
    requires
        page_commands(document, e, p, commands),
        text_command(commands, c, code, t),
    ensures
        has_segment(
            map_segments(file_name, source_file, document),
            file_name + ":"@ + ("events["@ + decimal(e as nat) + "].pages["@ + decimal(p as nat) + "]"@)
                + (".list["@ + decimal(c as nat) + "]"@),
            t,
            if code == 401 { SegmentKind::Dialogue } else { SegmentKind::ScrollingText },
        ),
{
    let kind = if code == 401 { SegmentKind::Dialogue } else { SegmentKind::ScrollingText };
    let events = list_of(document, "events"@)->Some_0;
    let pages = list_of(events[e], "pages"@)->Some_0;
    let prefix = page_prefix(e as nat, p as nat);
    let id = file_name + ":"@ + list_path(prefix, c as nat);
    assert(id =~= file_name + ":"@ + ("events["@ + decimal(e as nat) + "].pages["@ + decimal(p as nat) + "]"@)
        + (".list["@ + decimal(c as nat) + "]"@));
    lemma_scan_has_text(file_name, source_file, prefix, prefix, commands, c, code, t);
    lemma_neighbors_keep(command_scan(file_name, source_file, prefix, prefix, commands).1, id, t, kind);
    lemma_page_kept(file_name, source_file, e as nat, pages, p, commands, id, t, kind);
    lemma_event_kept(file_name, source_file, events, e, pages, id, t, kind);
}

/// Every page of every map event has its choices extracted: for each
/// translatable choice `k` of a "show choices" (102) command `c` of page `p`
/// of event `e`, the map's segments hold one with the id
/// `<file>:events[e].pages[p].list[c].parameters[0][k]`, that text, and the
/// kind Choice.
pub proof fn law_every_page_choice_extracted(
    file_name: Seq<char>,
    source_file: Seq<char>,
    document: JsonTree,
    e: int,
    p: int,
    commands: Seq<JsonTree>,
    c: int,
    k: int,
    t: Seq<char>,
)
    requires
        page_commands(document, e, p, commands),
        choice_command(commands, c, k, t),
    ensures
        has_segment(
            map_segments(file_name, source_file, document),
            file_name + ":"@ + ("events["@ + decimal(e as nat) + "].pages["@ + decimal(p as nat) + "]"@)
                + (".list["@ + decimal(c as nat) + "]"@) + (".parameters[0]["@ + decimal(k as nat) + "]"@),
            t,
            SegmentKind::Choice,
        ),
{
    let events = list_of(document, "events"@)->Some_0;
    let pages = list_of(events[e], "pages"@)->Some_0;
    let prefix = page_prefix(e as nat, p as nat);
    let id = file_name + ":"@ + (list_path(prefix, c as nat) + ".parameters[0]["@ + decimal(k as nat) + "]"@);
    assert(id =~= file_name + ":"@ + ("events["@ + decimal(e as nat) + "].pages["@ + decimal(p as nat) + "]"@)
        + (".list["@ + decimal(c as nat) + "]"@) + (".parameters[0]["@ + decimal(k as nat) + "]"@));
    lemma_scan_has_choice(file_name, source_file, prefix, prefix, commands, c, k, t);
    lemma_neighbors_keep(command_scan(file_name, source_file, prefix, prefix, commands).1, id, t, SegmentKind::Choice);
    lemma_page_kept(file_name, source_file, e as nat, pages, p, commands, id, t, SegmentKind::Choice);
    lemma_event_kept(file_name, source_file, events, e, pages, id, t, SegmentKind::Choice);
}

} // verus!
