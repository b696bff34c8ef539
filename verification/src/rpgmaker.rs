use crate::content::{
    join, join_path, opt_text, output_models, segment_models, ContextModel, DetectedProject,
    EngineError, OutputFile,
    EngineKind, Fault, FileRead, FileState, Segment, SegmentContext, SegmentKind, SegmentModel,
};
use crate::json::{
    field, integer, items, json_field, json_int, json_items, json_text, lemma_member_trees,
    lemma_trees, member_index, member_trees, parse_json, pretty_json, render_json_pretty,
    parsed_json, text, tree, trees, JsonTree, JsonValue,
};
use crate::translations::{lookup, TranslationTable};
use crate::order::{sort_by_key, sorted_by_key, text_before, text_key, SortKey, stably_sorted};
use crate::text::{
    chars_of, decimal, find_char, find_char_from, lemma_find_char, lemma_find_char_skip, owned,
    push_decimal, push_str, str_equal, trim, trim_bounds,
};
use vstd::prelude::*;

verus! {

/// Whether every character is an ASCII digit.
pub open spec fn all_digits(s: Seq<char>) -> bool {
    forall|i: int| 0 <= i < s.len() ==> '0' <= #[trigger] s[i] && s[i] <= '9'
}

/// Text worth translating: not blank, and not a bare number once trimmed.
pub open spec fn translatable(s: Seq<char>) -> bool {
    trim(s).len() > 0 && !all_digits(trim(s))
}

/// Whether a value is worth translating.
pub fn is_translatable(value: &str) -> (r: bool)
    ensures
        r == translatable(value@),
{
    let v = chars_of(value);
    let (start, end) = trim_bounds(&v);
    if start == end {
        return false;
    }
    let ghost t = v@.subrange(start as int, end as int);
    let mut i = start;
    while i < end
        invariant
            start <= i <= end <= v.len(),
            t == v@.subrange(start as int, end as int),
            t == trim(value@),
            forall|j: int| 0 <= j < i - start ==> '0' <= #[trigger] t[j] && t[j] <= '9',
        decreases end - i,
    {
        let c = v[i];
        if !('0' <= c && c <= '9') {
            assert(t[i - start] == c);
            return true;
        }
        i = i + 1;
    }
    false
}

/// The model of a segment read from an RPG Maker data file.
pub open spec fn rpg_segment(
    file_name: Seq<char>,
    source_file: Seq<char>,
    id_path: Seq<char>,
    location: Seq<char>,
    source: Seq<char>,
    kind: SegmentKind,
    speaker: Option<Seq<char>>,
) -> SegmentModel {
    SegmentModel {
        id: file_name + ":"@ + id_path,
        source,
        source_file,
        location,
        kind,
        context: ContextModel { speaker, previous_text: None, next_text: None },
    }
}

/// `prefix.list[index]`.
pub open spec fn list_path(prefix: Seq<char>, index: nat) -> Seq<char> {
    prefix + ".list["@ + decimal(index) + "]"@
}

/// `path.parameters[0][choice]`.
pub open spec fn choice_path(path: Seq<char>, choice: nat) -> Seq<char> {
    path + ".parameters[0]["@ + decimal(choice) + "]"@
}

/// The segments of the translatable choices among `choices`.
pub open spec fn choice_segments(
    file_name: Seq<char>,
    source_file: Seq<char>,
    id_path: Seq<char>,
    json_path: Seq<char>,
    speaker: Option<Seq<char>>,
    choices: Seq<JsonTree>,
) -> Seq<SegmentModel>
    decreases choices.len(),
{
    if choices.len() == 0 {
        Seq::empty()
    } else {
        let before = choice_segments(
            file_name,
            source_file,
            id_path,
            json_path,
            speaker,
            choices.drop_last(),
        );
        let k = (choices.len() - 1) as nat;
        match json_text(choices.last()) {
            Some(t) => if translatable(t) {
                before.push(
                    rpg_segment(
                        file_name,
                        source_file,
                        choice_path(id_path, k),
                        choice_path(json_path, k),
                        t,
                        SegmentKind::Choice,
                        speaker,
                    ),
                )
            } else {
                before
            },
            None => before,
        }
    }
}

/// The parameters of a command, when they are an array.
pub open spec fn command_parameters(command: JsonTree) -> Option<Seq<JsonTree>> {
    match json_field(command, "parameters"@) {
        Some(p) => json_items(p),
        None => None,
    }
}

/// The speaker that a "show text" command names: its fifth parameter, if it is
/// non-blank text.
pub open spec fn named_speaker(parameters: Option<Seq<JsonTree>>) -> Option<Seq<char>> {
    match parameters {
        Some(ps) => if ps.len() > 4 {
            match json_text(ps[4]) {
                Some(t) => if trim(t).len() > 0 {
                    Some(t)
                } else {
                    None
                },
                None => None,
            }
        } else {
            None
        },
        None => None,
    }
}

/// The first parameter of a command, when it is translatable text.
pub open spec fn first_text(parameters: Option<Seq<JsonTree>>) -> Option<Seq<char>> {
    match parameters {
        Some(ps) => if ps.len() > 0 {
            match json_text(ps[0]) {
                Some(t) => if translatable(t) {
                    Some(t)
                } else {
                    None
                },
                None => None,
            }
        } else {
            None
        },
        None => None,
    }
}

/// Reading state over an event command list: the current speaker and the
/// segments so far.
pub open spec fn command_scan(
    file_name: Seq<char>,
    source_file: Seq<char>,
    id_prefix: Seq<char>,
    json_prefix: Seq<char>,
    commands: Seq<JsonTree>,
) -> (Option<Seq<char>>, Seq<SegmentModel>)
    decreases commands.len(),
{
    if commands.len() == 0 {
        (None, Seq::empty())
    } else {
        let (speaker, segs) = command_scan(
            file_name,
            source_file,
            id_prefix,
            json_prefix,
            commands.drop_last(),
        );
        let index = (commands.len() - 1) as nat;
        let command = commands.last();
        let parameters = command_parameters(command);
        let id_path = list_path(id_prefix, index);
        let json_path = list_path(json_prefix, index);
        match json_field(command, "code"@) {
            None => (speaker, segs),
            Some(c) => match json_int(c) {
                None => (speaker, segs),
                Some(code) => if code == 101 {
                    (named_speaker(parameters), segs)
                } else if code == 401 || code == 405 {
                    match first_text(parameters) {
                        Some(t) => (
                            speaker,
                            segs.push(
                                rpg_segment(
                                    file_name,
                                    source_file,
                                    id_path,
                                    json_path + ".parameters[0]"@,
                                    t,
                                    if code == 401 {
                                        SegmentKind::Dialogue
                                    } else {
                                        SegmentKind::ScrollingText
                                    },
                                    speaker,
                                ),
                            ),
                        ),
                        None => (speaker, segs),
                    }
                } else if code == 102 {
                    match parameters {
                        Some(ps) => if ps.len() > 0 {
                            match json_items(ps[0]) {
                                Some(choices) => (
                                    speaker,
                                    segs + choice_segments(
                                        file_name,
                                        source_file,
                                        id_path,
                                        json_path,
                                        speaker,
                                        choices,
                                    ),
                                ),
                                None => (speaker, segs),
                            }
                        } else {
                            (speaker, segs)
                        },
                        None => (speaker, segs),
                    }
                } else {
                    (speaker, segs)
                },
            },
        }
    }
}

/// Each segment with the text of its neighbours as context.
pub open spec fn with_neighbors(segs: Seq<SegmentModel>) -> Seq<SegmentModel> {
    Seq::new(
        segs.len(),
        |i: int|
            SegmentModel {
                context: ContextModel {
                    speaker: segs[i].context.speaker,
                    previous_text: if i > 0 {
                        Some(segs[i - 1].source)
                    } else {
                        None
                    },
                    next_text: if i + 1 < segs.len() {
                        Some(segs[i + 1].source)
                    } else {
                        None
                    },
                },
                ..segs[i]
            },
    )
}

/// The segments of an event command list.
pub open spec fn command_list_segments(
    file_name: Seq<char>,
    source_file: Seq<char>,
    id_prefix: Seq<char>,
    json_prefix: Seq<char>,
    commands: Seq<JsonTree>,
) -> Seq<SegmentModel> {
    with_neighbors(command_scan(file_name, source_file, id_prefix, json_prefix, commands).1)
}

fn copy_text(o: &Option<String>) -> (r: Option<String>)
    ensures
        opt_text(r) == opt_text(*o),
{
    match o {
        Some(s) => Some(owned(s.as_str())),
        None => None,
    }
}

fn new_segment(
    file_name: &str,
    source_file: &str,
    id_path: &str,
    location: &str,
    source: &str,
    kind: SegmentKind,
    speaker: &Option<String>,
) -> (s: Segment)
    ensures
        s@ == rpg_segment(
            file_name@,
            source_file@,
            id_path@,
            location@,
            source@,
            kind,
            opt_text(*speaker),
        ),
{
    let mut id = owned(file_name);
    push_str(&mut id, ":");
    push_str(&mut id, id_path);
    proof {
        reveal_strlit(":");
    }
    Segment {
        id,
        source: owned(source),
        source_file: owned(source_file),
        location: owned(location),
        kind,
        context: SegmentContext { speaker: copy_text(speaker), previous_text: None, next_text: None },
    }
}

/// `prefix.list[index]` as text.
fn list_path_text(prefix: &str, index: usize) -> (r: String)
    ensures
        r@ == list_path(prefix@, index as nat),
{
    let mut s = owned(prefix);
    push_str(&mut s, ".list[");
    push_decimal(&mut s, index as u64);
    push_str(&mut s, "]");
    proof {
        reveal_strlit(".list[");
        reveal_strlit("]");
    }
    s
}

/// `path.parameters[0][choice]` as text.
fn choice_path_text(path: &str, choice: usize) -> (r: String)
    ensures
        r@ == choice_path(path@, choice as nat),
{
    let mut s = owned(path);
    push_str(&mut s, ".parameters[0][");
    push_decimal(&mut s, choice as u64);
    push_str(&mut s, "]");
    proof {
        reveal_strlit(".parameters[0][");
        reveal_strlit("]");
    }
    s
}

/// Gives each segment the text of its neighbours as context.
pub fn attach_neighbor_context(segments: Vec<Segment>) -> (r: Vec<Segment>)
    ensures
        segment_models(r@) == with_neighbors(segment_models(segments@)),
{
    let ghost m = segment_models(segments@);
    let mut out: Vec<Segment> = Vec::new();
    let mut i: usize = 0;
    while i < segments.len()
        invariant
            i <= segments.len(),
            m == segment_models(segments@),
            out.len() == i,
            forall|j: int| 0 <= j < i ==> (#[trigger] out@[j])@ == with_neighbors(m)[j],
        decreases segments.len() - i,
    {
        let s = &segments[i];
        let previous_text = if i > 0 {
            Some(owned(segments[i - 1].source.as_str()))
        } else {
            None
        };
        let next_text = if i + 1 < segments.len() {
            Some(owned(segments[i + 1].source.as_str()))
        } else {
            None
        };
        let seg = Segment {
            id: owned(s.id.as_str()),
            source: owned(s.source.as_str()),
            source_file: owned(s.source_file.as_str()),
            location: owned(s.location.as_str()),
            kind: s.kind,
            context: SegmentContext {
                speaker: copy_text(&s.context.speaker),
                previous_text,
                next_text,
            },
        };
        out.push(seg);
        i = i + 1;
    }
    assert(segment_models(out@) =~= with_neighbors(m));
    out
}

fn choice_segments_exec(
    file_name: &str,
    source_file: &str,
    id_path: &str,
    json_path: &str,
    speaker: &Option<String>,
    choices: &Vec<JsonValue>,
    out: &mut Vec<Segment>,
)
    ensures
        segment_models(final(out)@) == segment_models(old(out)@) + choice_segments(
            file_name@,
            source_file@,
            id_path@,
            json_path@,
            opt_text(*speaker),
            trees(choices@),
        ),
{
    let ghost start = segment_models(out@);
    let mut k: usize = 0;
    assert(trees(choices@).take(0) =~= Seq::<JsonTree>::empty());
    while k < choices.len()
        invariant
            k <= choices.len(),
            segment_models(out@) == start + choice_segments(
                file_name@,
                source_file@,
                id_path@,
                json_path@,
                opt_text(*speaker),
                trees(choices@).take(k as int),
            ),
        decreases choices.len() - k,
    {
        proof { lemma_trees(choices@); }
        assert(trees(choices@).take(k + 1).drop_last() =~= trees(choices@).take(k as int));
        assert(trees(choices@).take(k + 1).last() == tree(choices@[k as int]));
        if let Some(t) = text(&choices[k]) {
            if is_translatable(t.as_str()) {
                let id = choice_path_text(id_path, k);
                let location = choice_path_text(json_path, k);
                let seg = new_segment(
                    file_name,
                    source_file,
                    id.as_str(),
                    location.as_str(),
                    t.as_str(),
                    SegmentKind::Choice,
                    speaker,
                );
                let ghost before = out@;
                out.push(seg);
                assert(segment_models(out@) =~= segment_models(before).push(seg@));
            }
        }
        k = k + 1;
    }
    proof { lemma_trees(choices@); }
    assert(trees(choices@).take(choices.len() as int) =~= trees(choices@));
}

/// The translatable dialogue, choices and scrolling text of an event command
/// list, each with its speaker and neighbouring text.
pub fn extract_command_list(
    commands: &Vec<JsonValue>,
    file_name: &str,
    source_file: &str,
    id_prefix: &str,
    json_prefix: &str,
) -> (r: Vec<Segment>)
    ensures
        segment_models(r@) == command_list_segments(
            file_name@,
            source_file@,
            id_prefix@,
            json_prefix@,
            trees(commands@),
        ),
{
    proof {
        reveal_strlit("code");
        reveal_strlit("parameters");
        reveal_strlit(".parameters[0]");
    }
    let mut segments: Vec<Segment> = Vec::new();
    let mut speaker: Option<String> = None;
    let mut i: usize = 0;
    assert(trees(commands@).take(0) =~= Seq::<JsonTree>::empty());
    assert(segment_models(segments@) =~= Seq::<SegmentModel>::empty());
    while i < commands.len()
        invariant
            i <= commands.len(),
            (opt_text(speaker), segment_models(segments@)) == command_scan(
                file_name@,
                source_file@,
                id_prefix@,
                json_prefix@,
                trees(commands@).take(i as int),
            ),
        decreases commands.len() - i,
    {
        proof { lemma_trees(commands@); }
        assert(trees(commands@).take(i + 1).drop_last() =~= trees(commands@).take(i as int));
        assert(trees(commands@).take(i + 1).last() == tree(commands@[i as int]));
        let command = &commands[i];
        let code = match field(command, "code") {
            Some(c) => integer(c),
            None => None,
        };
        let parameters = match field(command, "parameters") {
            Some(p) => items(p),
            None => None,
        };
        match code {
            None => {},
            Some(code) => {
                if code == 101 {
                    let mut named: Option<String> = None;
                    if let Some(ps) = parameters {
                        proof {
                            lemma_trees(ps@);
                        }
                        if ps.len() > 4 {
                            if let Some(t) = text(&ps[4]) {
                                let v = chars_of(t.as_str());
                                let (a, b) = trim_bounds(&v);
                                if a < b {
                                    named = Some(owned(t.as_str()));
                                }
                            }
                        }
                    }
                    speaker = named;
                } else if code == 401 || code == 405 {
                    if let Some(ps) = parameters {
                        proof {
                            lemma_trees(ps@);
                        }
                        if ps.len() > 0 {
                            if let Some(t) = text(&ps[0]) {
                                if is_translatable(t.as_str()) {
                                    let id = list_path_text(id_prefix, i);
                                    let mut location = list_path_text(json_prefix, i);
                                    push_str(&mut location, ".parameters[0]");
                                    let kind = if code == 401 {
                                        SegmentKind::Dialogue
                                    } else {
                                        SegmentKind::ScrollingText
                                    };
                                    let seg = new_segment(
                                        file_name,
                                        source_file,
                                        id.as_str(),
                                        location.as_str(),
                                        t.as_str(),
                                        kind,
                                        &speaker,
                                    );
                                    let ghost before = segments@;
                                    segments.push(seg);
                                    assert(segment_models(segments@) =~= segment_models(
                                        before,
                                    ).push(seg@));
                                }
                            }
                        }
                    }
                } else if code == 102 {
                    if let Some(ps) = parameters {
                        proof {
                            lemma_trees(ps@);
                        }
                        if ps.len() > 0 {
                            if let Some(choices) = items(&ps[0]) {
                                let id = list_path_text(id_prefix, i);
                                let location = list_path_text(json_prefix, i);
                                choice_segments_exec(
                                    file_name,
                                    source_file,
                                    id.as_str(),
                                    location.as_str(),
                                    &speaker,
                                    choices,
                                    &mut segments,
                                );
                            }
                        }
                    }
                }
            },
        }
        i = i + 1;
    }
    proof { lemma_trees(commands@); }
    assert(trees(commands@).take(commands.len() as int) =~= trees(commands@));
    attach_neighbor_context(segments)
}


/// The array under `key` of an object.
pub open spec fn list_of(value: JsonTree, key: Seq<char>) -> Option<Seq<JsonTree>> {
    match json_field(value, key) {
        Some(v) => json_items(v),
        None => None,
    }
}

fn field_list<'a>(value: &'a JsonValue, key: &str) -> (r: Option<&'a Vec<JsonValue>>)
    ensures
        match r {
            Some(v) => list_of(tree(*value), key@) == Some(trees(v@)),
            None => list_of(tree(*value), key@) is None,
        },
{
    match field(value, key) {
        Some(v) => items(v),
        None => None,
    }
}

/// `events[e].pages[p]`.
pub open spec fn page_prefix(event: nat, page: nat) -> Seq<char> {
    "events["@ + decimal(event) + "].pages["@ + decimal(page) + "]"@
}

/// The segments of the pages of one map event.
pub open spec fn page_segments(
    file_name: Seq<char>,
    source_file: Seq<char>,
    event: nat,
    pages: Seq<JsonTree>,
) -> Seq<SegmentModel>
    decreases pages.len(),
{
    if pages.len() == 0 {
        Seq::empty()
    } else {
        let p = (pages.len() - 1) as nat;
        page_segments(file_name, source_file, event, pages.drop_last()) + match list_of(
            pages.last(),
            "list"@,
        ) {
            Some(commands) => command_list_segments(
                file_name,
                source_file,
                page_prefix(event, p),
                page_prefix(event, p),
                commands,
            ),
            None => Seq::empty(),
        }
    }
}

/// The segments of the events of a map.
pub open spec fn event_segments(
    file_name: Seq<char>,
    source_file: Seq<char>,
    events: Seq<JsonTree>,
) -> Seq<SegmentModel>
    decreases events.len(),
{
    if events.len() == 0 {
        Seq::empty()
    } else {
        let e = (events.len() - 1) as nat;
        event_segments(file_name, source_file, events.drop_last()) + match list_of(
            events.last(),
            "pages"@,
        ) {
            Some(pages) => page_segments(file_name, source_file, e, pages),
            None => Seq::empty(),
        }
    }
}

/// The segments of a map file (`MapXXX.json`).
pub open spec fn map_segments(file_name: Seq<char>, source_file: Seq<char>, document: JsonTree) -> Seq<
    SegmentModel,
> {
    match list_of(document, "events"@) {
        Some(events) => event_segments(file_name, source_file, events),
        None => Seq::empty(),
    }
}

/// `records[r]` and `[r]`.
pub open spec fn record_prefix(record: nat) -> Seq<char> {
    "records["@ + decimal(record) + "]"@
}

pub open spec fn index_prefix(record: nat) -> Seq<char> {
    "["@ + decimal(record) + "]"@
}

/// The segments of the common events.
pub open spec fn common_event_segments(
    file_name: Seq<char>,
    source_file: Seq<char>,
    records: Seq<JsonTree>,
) -> Seq<SegmentModel>
    decreases records.len(),
{
    if records.len() == 0 {
        Seq::empty()
    } else {
        let r = (records.len() - 1) as nat;
        common_event_segments(file_name, source_file, records.drop_last()) + match list_of(
            records.last(),
            "list"@,
        ) {
            Some(commands) => command_list_segments(
                file_name,
                source_file,
                record_prefix(r),
                index_prefix(r),
                commands,
            ),
            None => Seq::empty(),
        }
    }
}

/// The segment of one database field, if its text is translatable.
pub open spec fn database_field(
    file_name: Seq<char>,
    source_file: Seq<char>,
    record: JsonTree,
    r: nat,
    name: Seq<char>,
    kind: SegmentKind,
) -> Seq<SegmentModel> {
    match json_field(record, name) {
        Some(v) => match json_text(v) {
            Some(t) => if translatable(t) {
                seq![
                    rpg_segment(
                        file_name,
                        source_file,
                        record_prefix(r) + "."@ + name,
                        index_prefix(r) + "."@ + name,
                        t,
                        kind,
                        None,
                    ),
                ]
            } else {
                Seq::empty()
            },
            None => Seq::empty(),
        },
        None => Seq::empty(),
    }
}

/// The names and descriptions of the records of a database file.
pub open spec fn database_segments(
    file_name: Seq<char>,
    source_file: Seq<char>,
    records: Seq<JsonTree>,
) -> Seq<SegmentModel>
    decreases records.len(),
{
    if records.len() == 0 {
        Seq::empty()
    } else {
        let r = (records.len() - 1) as nat;
        database_segments(file_name, source_file, records.drop_last()) + database_field(
            file_name,
            source_file,
            records.last(),
            r,
            "name"@,
            SegmentKind::DatabaseName,
        ) + database_field(
            file_name,
            source_file,
            records.last(),
            r,
            "description"@,
            SegmentKind::DatabaseDescription,
        )
    }
}

fn decimal_text(prefix: &str, n: usize, suffix: &str) -> (r: String)
    ensures
        r@ == prefix@ + decimal(n as nat) + suffix@,
{
    let mut s = owned(prefix);
    push_decimal(&mut s, n as u64);
    push_str(&mut s, suffix);
    s
}

fn extend_segments(out: &mut Vec<Segment>, more: Vec<Segment>)
    ensures
        segment_models(final(out)@) == segment_models(old(out)@) + segment_models(more@),
{
    let mut more = more;
    let ghost a = out@;
    let ghost b = more@;
    out.append(&mut more);
    assert(out@ =~= a + b);
    assert(segment_models(out@) =~= segment_models(a) + segment_models(b));
}

/// The dialogue, choices and scrolling text of a map's events.
pub fn extract_map(document: &JsonValue, file_name: &str, source_file: &str) -> (r: Vec<Segment>)
    ensures
        segment_models(r@) == map_segments(file_name@, source_file@, tree(*document)),
{
    proof {
        reveal_strlit("events");
        reveal_strlit("pages");
        reveal_strlit("list");
        reveal_strlit("events[");
        reveal_strlit("].pages[");
        reveal_strlit("]");
    }
    let mut out: Vec<Segment> = Vec::new();
    assert(segment_models(out@) =~= Seq::<SegmentModel>::empty());
    let events = match field_list(document, "events") {
        Some(e) => e,
        None => {
            return out;
        },
    };
    let mut e: usize = 0;
    assert(trees(events@).take(0) =~= Seq::<JsonTree>::empty());
    while e < events.len()
        invariant
            e <= events.len(),
            segment_models(out@) == event_segments(
                file_name@,
                source_file@,
                trees(events@).take(e as int),
            ),
        decreases events.len() - e,
    {
        proof { lemma_trees(events@); }
        assert(trees(events@).take(e + 1).drop_last() =~= trees(events@).take(e as int));
        assert(trees(events@).take(e + 1).last() == tree(events@[e as int]));
        let ghost base = segment_models(out@);
        if let Some(pages) = field_list(&events[e], "pages") {
            let mut p: usize = 0;
            assert(trees(pages@).take(0) =~= Seq::<JsonTree>::empty());
            assert(segment_models(out@) =~= base + page_segments(
                file_name@,
                source_file@,
                e as nat,
                trees(pages@).take(0),
            ));
            while p < pages.len()
                invariant
                    p <= pages.len(),
                    segment_models(out@) == base + page_segments(
                        file_name@,
                        source_file@,
                        e as nat,
                        trees(pages@).take(p as int),
                    ),
                decreases pages.len() - p,
            {
                proof { lemma_trees(pages@); }
                assert(trees(pages@).take(p + 1).drop_last() =~= trees(pages@).take(p as int));
        assert(trees(pages@).take(p + 1).last() == tree(pages@[p as int]));
                let ghost before = segment_models(out@);
                if let Some(commands) = field_list(&pages[p], "list") {
                    let mut prefix = decimal_text("events[", e, "].pages[");
                    push_decimal(&mut prefix, p as u64);
                    push_str(&mut prefix, "]");
                    let segs = extract_command_list(
                        commands,
                        file_name,
                        source_file,
                        prefix.as_str(),
                        prefix.as_str(),
                    );
                    extend_segments(&mut out, segs);
                } else {
                    assert(segment_models(out@) =~= before + Seq::<SegmentModel>::empty());
                }
                p = p + 1;
            }
            proof { lemma_trees(pages@); }
    assert(trees(pages@).take(pages.len() as int) =~= trees(pages@));
        } else {
            assert(segment_models(out@) =~= base + Seq::<SegmentModel>::empty());
        }
        e = e + 1;
    }
    proof { lemma_trees(events@); }
    assert(trees(events@).take(events.len() as int) =~= trees(events@));
    out
}

/// The dialogue of the common events.
pub fn extract_common_events(document: &JsonValue, file_name: &str, source_file: &str) -> (r: Vec<
    Segment,
>)
    ensures
        segment_models(r@) == match json_items(tree(*document)) {
            Some(records) => common_event_segments(file_name@, source_file@, records),
            None => Seq::empty(),
        },
{
    proof {
        reveal_strlit("list");
        reveal_strlit("records[");
        reveal_strlit("[");
        reveal_strlit("]");
    }
    let mut out: Vec<Segment> = Vec::new();
    assert(segment_models(out@) =~= Seq::<SegmentModel>::empty());
    let records = match items(document) {
        Some(r) => r,
        None => {
            return out;
        },
    };
    let mut r: usize = 0;
    assert(trees(records@).take(0) =~= Seq::<JsonTree>::empty());
    while r < records.len()
        invariant
            r <= records.len(),
            segment_models(out@) == common_event_segments(
                file_name@,
                source_file@,
                trees(records@).take(r as int),
            ),
        decreases records.len() - r,
    {
        proof { lemma_trees(records@); }
        assert(trees(records@).take(r + 1).drop_last() =~= trees(records@).take(r as int));
        assert(trees(records@).take(r + 1).last() == tree(records@[r as int]));
        let ghost before = segment_models(out@);
        if let Some(commands) = field_list(&records[r], "list") {
            let id_prefix = decimal_text("records[", r, "]");
            let json_prefix = decimal_text("[", r, "]");
            let segs = extract_command_list(
                commands,
                file_name,
                source_file,
                id_prefix.as_str(),
                json_prefix.as_str(),
            );
            extend_segments(&mut out, segs);
        } else {
            assert(segment_models(out@) =~= before + Seq::<SegmentModel>::empty());
        }
        r = r + 1;
    }
    proof { lemma_trees(records@); }
    assert(trees(records@).take(records.len() as int) =~= trees(records@));
    out
}

fn push_database_field(
    out: &mut Vec<Segment>,
    record: &JsonValue,
    r: usize,
    file_name: &str,
    source_file: &str,
    name: &str,
    kind: SegmentKind,
)
    ensures
        segment_models(final(out)@) == segment_models(old(out)@) + database_field(
            file_name@,
            source_file@,
            tree(*record),
            r as nat,
            name@,
            kind,
        ),
{
    proof {
        reveal_strlit("records[");
        reveal_strlit("[");
        reveal_strlit("].");
        reveal_strlit("]");
        reveal_strlit(".");
    }
    let ghost before = segment_models(out@);
    if let Some(v) = field(record, name) {
        if let Some(t) = text(v) {
            if is_translatable(t.as_str()) {
                let mut id_path = decimal_text("records[", r, "].");
                push_str(&mut id_path, name);
                let mut location = decimal_text("[", r, "].");
                push_str(&mut location, name);
                assert(id_path@ =~= record_prefix(r as nat) + "."@ + name@);
                assert(location@ =~= index_prefix(r as nat) + "."@ + name@);
                let none: Option<String> = None;
                let seg = new_segment(
                    file_name,
                    source_file,
                    id_path.as_str(),
                    location.as_str(),
                    t.as_str(),
                    kind,
                    &none,
                );
                out.push(seg);
                assert(segment_models(out@) =~= before + seq![seg@]);
                return;
            }
        }
    }
    assert(segment_models(out@) =~= before + Seq::<SegmentModel>::empty());
}

/// The names and descriptions of a database file's records.
pub fn extract_database(document: &JsonValue, file_name: &str, source_file: &str) -> (r: Vec<
    Segment,
>)
    ensures
        segment_models(r@) == match json_items(tree(*document)) {
            Some(records) => database_segments(file_name@, source_file@, records),
            None => Seq::empty(),
        },
{
    proof {
        reveal_strlit("name");
        reveal_strlit("description");
    }
    let mut out: Vec<Segment> = Vec::new();
    assert(segment_models(out@) =~= Seq::<SegmentModel>::empty());
    let records = match items(document) {
        Some(r) => r,
        None => {
            return out;
        },
    };
    let mut r: usize = 0;
    assert(trees(records@).take(0) =~= Seq::<JsonTree>::empty());
    while r < records.len()
        invariant
            r <= records.len(),
            segment_models(out@) == database_segments(
                file_name@,
                source_file@,
                trees(records@).take(r as int),
            ),
        decreases records.len() - r,
    {
        proof { lemma_trees(records@); }
        assert(trees(records@).take(r + 1).drop_last() =~= trees(records@).take(r as int));
        assert(trees(records@).take(r + 1).last() == tree(records@[r as int]));
        push_database_field(
            &mut out,
            &records[r],
            r,
            file_name,
            source_file,
            "name",
            SegmentKind::DatabaseName,
        );
        push_database_field(
            &mut out,
            &records[r],
            r,
            file_name,
            source_file,
            "description",
            SegmentKind::DatabaseDescription,
        );
        r = r + 1;
    }
    proof { lemma_trees(records@); }
    assert(trees(records@).take(records.len() as int) =~= trees(records@));
    out
}


/// A file of an RPG Maker data directory, with its text or the message of the
/// error that reading it gave.
pub struct DataFile {
    pub name: String,
    pub content: Result<String, String>,
}

impl SortKey for DataFile {
    open spec fn sort_key(&self) -> Seq<int> {
        text_key(self.name@, true)
    }

    fn goes_before(&self, other: &Self) -> (r: bool) {
        text_before(self.name.as_str(), other.name.as_str(), true)
    }
}

/// Whether a file name has the extension `json` (`Path::extension`).
pub open spec fn json_name(name: Seq<char>) -> bool {
    name.len() > 5 && name.subrange(name.len() - 5, name.len() as int) == ".json"@
}

/// The data files whose names have the extension `json`, in order.
pub open spec fn json_files(files: Seq<DataFile>) -> Seq<DataFile>
    decreases files.len(),
{
    if files.len() == 0 {
        Seq::empty()
    } else if json_name(files.last().name@) {
        json_files(files.drop_last()).push(files.last())
    } else {
        json_files(files.drop_last())
    }
}

/// What a data file holds, by its name.
pub enum DataKind {
    MapFile,
    CommonEvents,
    Database,
    Other,
}

pub open spec fn database_names() -> Seq<Seq<char>> {
    seq![
        "Actors.json"@,
        "Armors.json"@,
        "Classes.json"@,
        "Enemies.json"@,
        "Items.json"@,
        "Skills.json"@,
        "States.json"@,
        "Weapons.json"@,
    ]
}

pub open spec fn data_kind(name: Seq<char>) -> DataKind {
    if name.len() >= 3 && name.take(3) == "Map"@ && name != "MapInfos.json"@ {
        DataKind::MapFile
    } else if name == "CommonEvents.json"@ {
        DataKind::CommonEvents
    } else if database_names().contains(name) {
        DataKind::Database
    } else {
        DataKind::Other
    }
}

/// The segments of one data file, or the error reading it gives.
pub open spec fn data_file_segments(data_dir: Seq<char>, file: DataFile) -> Result<
    Seq<SegmentModel>,
    Fault,
> {
    let name = file.name@;
    let path = join_path(data_dir, name);
    if data_kind(name) is Other {
        Ok(Seq::empty())
    } else {
        match file.content {
            Err(m) => Err(Fault::Io(path, m@)),
            Ok(t) => match parsed_json(t@) {
                Err(m) => Err(Fault::InvalidData(path, m)),
                Ok(doc) => Ok(
                    match data_kind(name) {
                        DataKind::MapFile => map_segments(name, path, doc),
                        DataKind::CommonEvents => match json_items(doc) {
                            Some(records) => common_event_segments(name, path, records),
                            None => Seq::empty(),
                        },
                        _ => match json_items(doc) {
                            Some(records) => database_segments(name, path, records),
                            None => Seq::empty(),
                        },
                    },
                ),
            },
        }
    }
}

/// The segments of `files[i..]`, in order, or the first error.
pub open spec fn project_segments(data_dir: Seq<char>, files: Seq<DataFile>, i: int) -> Result<
    Seq<SegmentModel>,
    Fault,
>
    decreases files.len() - i,
{
    if i < 0 || i >= files.len() {
        Ok(Seq::empty())
    } else {
        match data_file_segments(data_dir, files[i]) {
            Err(f) => Err(f),
            Ok(head) => match project_segments(data_dir, files, i + 1) {
                Err(f) => Err(f),
                Ok(rest) => Ok(head + rest),
            },
        }
    }
}

/// Model of an engine result that carries segments.
pub open spec fn engine_segments(r: Result<Vec<Segment>, EngineError>) -> Result<
    Seq<SegmentModel>,
    Fault,
> {
    match r {
        Ok(v) => Ok(segment_models(v@)),
        Err(e) => Err(e@),
    }
}

/// Whether a file name has the extension `json`.
pub fn is_json_name(name: &str) -> (r: bool)
    ensures
        r == json_name(name@),
{
    let v = chars_of(name);
    let n = v.len();
    proof {
        reveal_strlit(".json");
    }
    if n <= 5 {
        return false;
    }
    let tail = crate::text::slice_chars(&v, n - 5, n);
    let ext = chars_of(".json");
    crate::text::chars_equal(&tail, &ext)
}

fn data_kind_of(name: &str) -> (r: DataKind)
    ensures
        r == data_kind(name@),
{
    proof {
        reveal_strlit("Map");
        reveal_strlit("MapInfos.json");
        reveal_strlit("CommonEvents.json");
        reveal_strlit("Actors.json");
        reveal_strlit("Armors.json");
        reveal_strlit("Classes.json");
        reveal_strlit("Enemies.json");
        reveal_strlit("Items.json");
        reveal_strlit("Skills.json");
        reveal_strlit("States.json");
        reveal_strlit("Weapons.json");
    }
    let v = chars_of(name);
    if v.len() >= 3 {
        let head = crate::text::slice_chars(&v, 0, 3);
        let map = chars_of("Map");
        assert(v@.subrange(0, 3) =~= v@.take(3));
        if crate::text::chars_equal(&head, &map) && !str_equal(name, "MapInfos.json") {
            return DataKind::MapFile;
        }
    }
    if str_equal(name, "CommonEvents.json") {
        return DataKind::CommonEvents;
    }
    let names = [
        "Actors.json",
        "Armors.json",
        "Classes.json",
        "Enemies.json",
        "Items.json",
        "Skills.json",
        "States.json",
        "Weapons.json",
    ];
    let mut i: usize = 0;
    while i < 8
        invariant
            i <= 8,
            forall|j: int| 0 <= j < 8 ==> (#[trigger] names@[j])@ == database_names()[j],
            forall|j: int| 0 <= j < i ==> database_names()[j] != name@,
            !(data_kind(name@) is MapFile),
            !(data_kind(name@) is CommonEvents),
        decreases 8 - i,
    {
        if str_equal(names[i], name) {
            assert(database_names()[i as int] == name@);
            return DataKind::Database;
        }
        i = i + 1;
    }
    assert(!database_names().contains(name@));
    DataKind::Other
}

fn data_file_segments_exec(data_dir: &str, file: &DataFile) -> (r: Result<Vec<Segment>, EngineError>)
    ensures
        engine_segments(r) == data_file_segments(data_dir@, *file),
{
    let kind = data_kind_of(file.name.as_str());
    let path = join(data_dir, file.name.as_str());
    if let DataKind::Other = kind {
        let v: Vec<Segment> = Vec::new();
        assert(segment_models(v@) =~= Seq::<SegmentModel>::empty());
        return Ok(v);
    }
    let doc = match read_json(path.as_str(), &file.content) {
        Err(e) => {
            return Err(e);
        },
        Ok(d) => d,
    };
    let name = file.name.as_str();
    let segs = match kind {
        DataKind::MapFile => extract_map(&doc, name, path.as_str()),
        DataKind::CommonEvents => extract_common_events(&doc, name, path.as_str()),
        _ => extract_database(&doc, name, path.as_str()),
    };
    Ok(segs)
}

fn project_segments_from(data_dir: &str, files: &Vec<DataFile>, i: usize) -> (r: Result<
    Vec<Segment>,
    EngineError,
>)
    requires
        i <= files.len(),
    ensures
        engine_segments(r) == project_segments(data_dir@, files@, i as int),
    decreases files.len() - i,
{
    if i >= files.len() {
        let v: Vec<Segment> = Vec::new();
        assert(segment_models(v@) =~= Seq::<SegmentModel>::empty());
        return Ok(v);
    }
    let mut head = match data_file_segments_exec(data_dir, &files[i]) {
        Ok(h) => h,
        Err(e) => {
            return Err(e);
        },
    };
    let rest = match project_segments_from(data_dir, files, i + 1) {
        Ok(r) => r,
        Err(e) => {
            return Err(e);
        },
    };
    extend_segments(&mut head, rest);
    Ok(head)
}

/// The data files with the extension `json`, in their order.
pub fn select_json_files(files: Vec<DataFile>) -> (r: Vec<DataFile>)
    ensures
        r@ == json_files(files@),
{
    let mut files = files;
    let mut out: Vec<DataFile> = Vec::new();
    let ghost all = files@;
    let total = files.len();
    let mut taken: usize = 0;
    while files.len() > 0
        invariant
            taken + files.len() == all.len(),
            all.len() == total,
            files@ == all.skip(taken as int),
            out@ == json_files(all.take(taken as int)),
        decreases files.len(),
    {
        let f = files.remove(0);
        assert(all.take(taken + 1).drop_last() =~= all.take(taken as int));
        assert(all.take(taken + 1).last() == f);
        assert(files@ =~= all.skip(taken + 1));
        if is_json_name(f.name.as_str()) {
            out.push(f);
        }
        taken = taken + 1;
    }
    assert(all.take(all.len() as int) =~= all);
    out
}

/// The translatable text of an RPG Maker project: the dialogue of its maps
/// and common events and the names and descriptions of its database, file by
/// file in name order.
///
/// `listing` holds the files of the data directory (each `.json` file with its
/// text), or the message of the error that listing it gave.
pub fn extract_project(project: &DetectedProject, listing: Result<Vec<DataFile>, String>) -> (r: Result<
    Vec<Segment>,
    EngineError,
>)
    ensures
        listing matches Err(m) ==> engine_segments(r) == Err::<Seq<SegmentModel>, Fault>(
            Fault::Io(project.data_dir@, m@),
        ),
        listing matches Ok(files) ==> exists|sorted: Seq<DataFile>|
            #![trigger stably_sorted(json_files(files@), sorted), project_segments(project.data_dir@, sorted, 0)]
            stably_sorted(json_files(files@), sorted)
                && engine_segments(r) == project_segments(project.data_dir@, sorted, 0),
{
    let files = match listing {
        Err(m) => {
            return Err(EngineError::Io { path: owned(project.data_dir.as_str()), message: m });
        },
        Ok(f) => f,
    };
    let selected = select_json_files(files);
    let sorted = sort_by_key(selected);
    project_segments_from(project.data_dir.as_str(), &sorted, 0)
}

/// Where a project keeps its data: MV projects under `www/data`, MZ projects
/// under `data`.
pub open spec fn rpg_layout(root: Seq<char>, www_data_is_dir: bool, data_is_dir: bool) -> Option<
    (EngineKind, Seq<char>),
> {
    if www_data_is_dir {
        Some((EngineKind::RpgMakerMv, join_path(root, "www/data"@)))
    } else if data_is_dir {
        Some((EngineKind::RpgMakerMz, join_path(root, "data"@)))
    } else {
        None
    }
}

/// What detecting a project gives: its engine and data directory, or the error.
pub open spec fn rpg_detect(
    root: Seq<char>,
    www_data_is_dir: bool,
    data_is_dir: bool,
    system: FileState,
) -> Result<(EngineKind, Seq<char>), Fault> {
    match rpg_layout(root, www_data_is_dir, data_is_dir) {
        None => Err(Fault::Unsupported),
        Some((engine, data_dir)) => {
            let path = join_path(data_dir, "System.json"@);
            match system {
                FileState::Missing => Err(Fault::MissingFile(path)),
                FileState::Failed(m) => Err(Fault::Io(path, m)),
                FileState::Text(t) => match parsed_json(t) {
                    Err(m) => Err(Fault::InvalidData(path, m)),
                    Ok(_) => Ok((engine, data_dir)),
                },
            }
        },
    }
}

/// The document in a data file at `path`, from what reading it gave: the
/// reading's error, the parser's error, or the document.
pub fn read_json(path: &str, content: &Result<String, String>) -> (r: Result<JsonValue, EngineError>)
    ensures
        match content {
            Err(m) => r matches Err(e) && e@ == Fault::Io(path@, m@),
            Ok(t) => match parsed_json(t@) {
                Ok(d) => r matches Ok(v) && tree(v) == d,
                Err(m) => r matches Err(e) && e@ == Fault::InvalidData(path@, m),
            },
        },
{
    match content {
        Err(m) => Err(EngineError::Io { path: owned(path), message: owned(m.as_str()) }),
        Ok(t) => match parse_json(t.as_str()) {
            Err(m) => Err(EngineError::InvalidData { path: owned(path), message: m }),
            Ok(d) => Ok(d),
        },
    }
}

/// The engine and data directory of a project, when either data directory exists.
pub fn data_directory(root: &str, www_data_is_dir: bool, data_is_dir: bool) -> (r: Option<
    (EngineKind, String),
>)
    ensures
        match (r, rpg_layout(root@, www_data_is_dir, data_is_dir)) {
            (Some((k, d)), Some((ek, ed))) => k == ek && d@ == ed,
            (None, None) => true,
            _ => false,
        },
{
    proof {
        reveal_strlit("www/data");
        reveal_strlit("data");
    }
    if www_data_is_dir {
        Some((EngineKind::RpgMakerMv, join(root, "www/data")))
    } else if data_is_dir {
        Some((EngineKind::RpgMakerMz, join(root, "data")))
    } else {
        None
    }
}

/// Detects an unencrypted RPG Maker MV or MZ project.
///
/// `www_data_is_dir` and `data_is_dir` tell whether `www/data` and `data` are
/// directories below `root`; `system` is what was found at `System.json` in the
/// data directory that [`data_directory`] picks.
pub fn detect_project(root: &str, www_data_is_dir: bool, data_is_dir: bool, system: &FileRead) -> (r:
    Result<DetectedProject, EngineError>)
    ensures
        match (r, rpg_detect(root@, www_data_is_dir, data_is_dir, system@)) {
            (Ok(p), Ok((engine, data_dir))) => p.root@ == root@ && p.data_dir@ == data_dir
                && p.engine == engine,
            (Err(e), Err(f)) => e@ == f,
            _ => false,
        },
{
    proof {
        reveal_strlit("System.json");
    }
    let (engine, data_dir) = match data_directory(root, www_data_is_dir, data_is_dir) {
        Some(x) => x,
        None => {
            return Err(EngineError::UnsupportedProject);
        },
    };
    let path = join(data_dir.as_str(), "System.json");
    match system {
        FileRead::Missing => Err(EngineError::MissingRequiredFile(path)),
        FileRead::Failed(m) => Err(EngineError::Io { path, message: owned(m.as_str()) }),
        FileRead::Text(t) => match parse_json(t.as_str()) {
            Err(m) => Err(EngineError::InvalidData { path, message: m }),
            Ok(_) => Ok(DetectedProject { root: owned(root), data_dir, engine }),
        },
    }
}


/// One step of a location in a document: a member name or an array index.
pub enum JsonStep {
    Key(String),
    Index(usize),
}

/// Model of a [`JsonStep`].
pub enum StepModel {
    Key(Seq<char>),
    Index(nat),
}

pub open spec fn step_model(s: JsonStep) -> StepModel {
    match s {
        JsonStep::Key(k) => StepModel::Key(k@),
        JsonStep::Index(n) => StepModel::Index(n as nat),
    }
}

pub open spec fn step_models(s: Seq<JsonStep>) -> Seq<StepModel> {
    s.map_values(|x: JsonStep| step_model(x))
}

/// The number that the ASCII digits `d` write.
pub open spec fn digits_value(d: Seq<char>) -> nat
    decreases d.len(),
{
    if d.len() == 0 {
        0
    } else {
        digits_value(d.drop_last()) * 10 + ((d.last() as u32) - ('0' as u32)) as nat
    }
}

/// `str::parse::<usize>`: an optional `+`, then at least one digit, and a value
/// that fits.
pub open spec fn index_value(t: Seq<char>) -> Option<nat> {
    let d = if t.len() > 0 && t[0] == '+' {
        t.drop_first()
    } else {
        t
    };
    if d.len() > 0 && all_digits(d) && digits_value(d) <= usize::MAX {
        Some(digits_value(d))
    } else {
        None
    }
}

/// The steps of a run of `[index]` parts.
pub open spec fn bracket_steps(r: Seq<char>) -> Option<Seq<StepModel>>
    decreases r.len(),
{
    if r.len() == 0 {
        Some(Seq::empty())
    } else if r[0] != '[' {
        None
    } else {
        let inner = r.drop_first();
        match find_char(inner, ']', 0) {
            None => None,
            Some(k) => match index_value(
                inner.take(
                    {
                        proof {
                            lemma_find_char(inner, ']', 0);
                        }
                        k
                    },
                ),
            ) {
                None => None,
                Some(n) => match bracket_steps(inner.skip(k + 1)) {
                    None => None,
                    Some(rest) => Some(seq![StepModel::Index(n)] + rest),
                },
            },
        }
    }
}

/// The steps of one `.`-separated part: a member name, if any, then indices.
pub open spec fn component_steps(c: Seq<char>) -> Option<Seq<StepModel>> {
    let end = match find_char(c, '[', 0) {
        Some(k) => k,
        None => c.len() as int,
    };
    let name = c.take(end);
    match bracket_steps(c.skip(end)) {
        None => None,
        Some(b) => Some(
            (if name.len() > 0 {
                seq![StepModel::Key(name)]
            } else {
                Seq::empty()
            }) + b,
        ),
    }
}

/// The steps of a location such as `events[1].pages[0].list[2].parameters[0]`.
pub open spec fn path_steps(p: Seq<char>) -> Option<Seq<StepModel>>
    decreases p.len(),
{
    match find_char(p, '.', 0) {
        None => component_steps(p),
        Some(k) => match component_steps(
            p.take(
                {
                    proof {
                        lemma_find_char(p, '.', 0);
                    }
                    k
                },
            ),
        ) {
            None => None,
            Some(a) => match path_steps(p.skip(k + 1)) {
                None => None,
                Some(b) => Some(a + b),
            },
        },
    }
}

/// The part of a document at the end of `steps`.
pub open spec fn tree_at(t: JsonTree, steps: Seq<StepModel>) -> Option<JsonTree>
    decreases steps.len(),
{
    if steps.len() == 0 {
        Some(t)
    } else {
        match steps[0] {
            StepModel::Key(k) => match json_field(t, k) {
                Some(c) => tree_at(c, steps.drop_first()),
                None => None,
            },
            StepModel::Index(n) => match t {
                JsonTree::Array(items) => if n < items.len() {
                    tree_at(items[n as int], steps.drop_first())
                } else {
                    None
                },
                _ => None,
            },
        }
    }
}

/// The document with the part at the end of `steps` replaced by the text `text`.
pub open spec fn tree_replace(t: JsonTree, steps: Seq<StepModel>, text: Seq<char>) -> JsonTree
    decreases steps.len(),
{
    if steps.len() == 0 {
        JsonTree::Str(text)
    } else {
        match steps[0] {
            StepModel::Key(k) => match t {
                JsonTree::Object(ms) => match member_index(ms, k, 0) {
                    Some(i) => JsonTree::Object(
                        ms.update(i, (ms[i].0, tree_replace(ms[i].1, steps.drop_first(), text))),
                    ),
                    None => t,
                },
                _ => t,
            },
            StepModel::Index(n) => match t {
                JsonTree::Array(items) => if n < items.len() {
                    JsonTree::Array(
                        items.update(
                            n as int,
                            tree_replace(items[n as int], steps.drop_first(), text),
                        ),
                    )
                } else {
                    t
                },
                _ => t,
            },
        }
    }
}

/// Why a translation could not be put in place.
#[derive(Clone, Copy, Debug, PartialEq, Eq, Structural)]
pub enum ReplaceFailure {
    /// The location no longer exists in the document.
    Missing,
    /// The location holds something other than text.
    NotText,
}

/// Putting `text` at `location`: the new document, or why it fails.
pub open spec fn replace_outcome(t: JsonTree, location: Seq<char>, text: Seq<char>) -> Result<
    JsonTree,
    ReplaceFailure,
> {
    match path_steps(location) {
        None => Err(ReplaceFailure::Missing),
        Some(steps) => match tree_at(t, steps) {
            None => Err(ReplaceFailure::Missing),
            Some(v) => if v is Str {
                Ok(tree_replace(t, steps, text))
            } else {
                Err(ReplaceFailure::NotText)
            },
        },
    }
}

/// Putting each `(location, text)` in place in turn: the final document, or the
/// first failure with its location.
pub open spec fn apply_all(t: JsonTree, replacements: Seq<(Seq<char>, Seq<char>)>) -> Result<
    JsonTree,
    (Seq<char>, ReplaceFailure),
>
    decreases replacements.len(),
{
    if replacements.len() == 0 {
        Ok(t)
    } else {
        match apply_all(t, replacements.drop_last()) {
            Err(e) => Err(e),
            Ok(m) => {
                let (location, text) = replacements.last();
                match replace_outcome(m, location, text) {
                    Err(f) => Err((location, f)),
                    Ok(n) => Ok(n),
                }
            },
        }
    }
}

/// The message for a translation that could not be put in place.
pub open spec fn replace_message(location: Seq<char>, failure: ReplaceFailure) -> Seq<char> {
    match failure {
        ReplaceFailure::Missing => "translation path no longer exists: "@ + location,
        ReplaceFailure::NotText => "translation path is not a string: "@ + location,
    }
}


pub proof fn lemma_digits_grow(d: Seq<char>, i: int, j: int)
    requires
        0 <= i <= j <= d.len(),
    ensures
        digits_value(d.take(i)) <= digits_value(d.take(j)),
    decreases j - i,
{
    if i < j {
        lemma_digits_grow(d, i, j - 1);
        assert(d.take(j).drop_last() =~= d.take(j - 1));
    }
}

/// `str::parse::<usize>` on `v[start..end]`.
fn parse_index(v: &Vec<char>, start: usize, end: usize) -> (r: Option<usize>)
    requires
        start <= end <= v.len(),
    ensures
        match r {
            Some(n) => index_value(v@.subrange(start as int, end as int)) == Some(n as nat),
            None => index_value(v@.subrange(start as int, end as int)) is None,
        },
{
    let ghost t = v@.subrange(start as int, end as int);
    let mut a = start;
    if a < end && v[a] == '+' {
        a = a + 1;
    }
    let ghost d = v@.subrange(a as int, end as int);
    assert(d =~= (if t.len() > 0 && t[0] == '+' {
        t.drop_first()
    } else {
        t
    }));
    if a == end {
        return None;
    }
    let mut value: usize = 0;
    let mut i = a;
    assert(d.take(0) =~= Seq::<char>::empty());
    while i < end
        invariant
            a <= i <= end <= v.len(),
            d == v@.subrange(a as int, end as int),
            t == v@.subrange(start as int, end as int),
            d == (if t.len() > 0 && t[0] == '+' {
                t.drop_first()
            } else {
                t
            }),
            d.len() > 0,
            value as nat == digits_value(d.take(i - a)),
            all_digits(d.take(i - a)),
        decreases end - i,
    {
        let c = v[i];
        assert(d[i - a] == c);
        if !('0' <= c && c <= '9') {
            assert(!all_digits(d));
            return None;
        }
        assert(d.take(i - a + 1).drop_last() =~= d.take(i - a));
        assert(d.take(i - a + 1).last() == c);
        let digit = (c as u32 - '0' as u32) as usize;
        let next = match value.checked_mul(10) {
            Some(x) => x.checked_add(digit),
            None => None,
        };
        match next {
            Some(x) => {
                value = x;
            },
            None => {
                proof {
                    lemma_digits_grow(d, i - a + 1, d.len() as int);
                    assert(d.take(d.len() as int) =~= d);
                }
                return None;
            },
        }
        i = i + 1;
    }
    assert(d.take(d.len() as int) =~= d);
    Some(value)
}

/// The steps of `v[start..]` when it is a run of `[index]` parts.
fn bracket_steps_from(v: &Vec<char>, start: usize) -> (r: Option<Vec<JsonStep>>)
    requires
        start <= v.len(),
    ensures
        match r {
            Some(st) => bracket_steps(v@.skip(start as int)) == Some(step_models(st@)),
            None => bracket_steps(v@.skip(start as int)) is None,
        },
    decreases v.len() - start,
{
    let ghost r0 = v@.skip(start as int);
    if start == v.len() {
        let st: Vec<JsonStep> = Vec::new();
        assert(step_models(st@) =~= Seq::<StepModel>::empty());
        return Some(st);
    }
    assert(r0[0] == v@[start as int]);
    if v[start] != '[' {
        return None;
    }
    let ghost inner = r0.drop_first();
    assert(inner =~= v@.skip(start + 1));
    proof {
        lemma_find_char_skip(v@, ']', start + 1, 0);
    }
    let close = match find_char_from(v, ']', start + 1) {
        Some(q) => q,
        None => {
            return None;
        },
    };
    proof {
        lemma_find_char(v@, ']', start + 1);
    }
    let ghost k = close - (start + 1);
    assert(inner.take(k) =~= v@.subrange(start + 1, close as int));
    let n = match parse_index(v, start + 1, close) {
        Some(n) => n,
        None => {
            return None;
        },
    };
    assert(inner.skip(k + 1) =~= v@.skip(close + 1));
    let rest = match bracket_steps_from(v, close + 1) {
        Some(r) => r,
        None => {
            return None;
        },
    };
    let mut out: Vec<JsonStep> = Vec::new();
    out.push(JsonStep::Index(n));
    let mut rest = rest;
    let ghost a = out@;
    let ghost b = rest@;
    out.append(&mut rest);
    assert(out@ =~= a + b);
    assert(step_models(out@) =~= seq![StepModel::Index(n as nat)] + step_models(b));
    Some(out)
}

/// The steps of one `.`-separated part.
fn component_steps_exec(c: &Vec<char>) -> (r: Option<Vec<JsonStep>>)
    ensures
        match r {
            Some(st) => component_steps(c@) == Some(step_models(st@)),
            None => component_steps(c@) is None,
        },
{
    let end = match find_char_from(c, '[', 0) {
        Some(k) => k,
        None => c.len(),
    };
    proof {
        lemma_find_char(c@, '[', 0);
    }
    let brackets = match bracket_steps_from(c, end) {
        Some(b) => b,
        None => {
            return None;
        },
    };
    let mut out: Vec<JsonStep> = Vec::new();
    if end > 0 {
        let name = crate::text::slice_chars(c, 0, end);
        assert(name@ =~= c@.take(end as int));
        out.push(JsonStep::Key(crate::text::string_from(&name)));
    }
    let ghost a = out@;
    let mut brackets = brackets;
    let ghost b = brackets@;
    out.append(&mut brackets);
    assert(out@ =~= a + b);
    assert(step_models(out@) =~= step_models(a) + step_models(b));
    assert(step_models(a) =~= (if c@.take(end as int).len() > 0 {
        seq![StepModel::Key(c@.take(end as int))]
    } else {
        Seq::empty()
    }));
    Some(out)
}

/// The steps of `v[start..]` read as a location.
fn path_steps_from(v: &Vec<char>, start: usize) -> (r: Option<Vec<JsonStep>>)
    requires
        start <= v.len(),
    ensures
        match r {
            Some(st) => path_steps(v@.skip(start as int)) == Some(step_models(st@)),
            None => path_steps(v@.skip(start as int)) is None,
        },
    decreases v.len() - start,
{
    let ghost p = v@.skip(start as int);
    proof {
        lemma_find_char_skip(v@, '.', start as int, 0);
        lemma_find_char(v@, '.', start as int);
    }
    match find_char_from(v, '.', start) {
        None => {
            let comp = crate::text::slice_chars(v, start, v.len());
            assert(comp@ =~= p);
            component_steps_exec(&comp)
        },
        Some(q) => {
            let comp = crate::text::slice_chars(v, start, q);
            assert(comp@ =~= p.take(q - start));
            let first = match component_steps_exec(&comp) {
                Some(f) => f,
                None => {
                    return None;
                },
            };
            assert(p.skip(q - start + 1) =~= v@.skip(q + 1));
            let mut rest = match path_steps_from(v, q + 1) {
                Some(r) => r,
                None => {
                    return None;
                },
            };
            let mut out = first;
            let ghost a = out@;
            let ghost b = rest@;
            out.append(&mut rest);
            assert(out@ =~= a + b);
            assert(step_models(out@) =~= step_models(a) + step_models(b));
            Some(out)
        },
    }
}

/// The steps of a location such as `events[1].pages[0].list[2].parameters[0]`.
pub fn json_path_steps(location: &str) -> (r: Option<Vec<JsonStep>>)
    ensures
        match r {
            Some(st) => path_steps(location@) == Some(step_models(st@)),
            None => path_steps(location@) is None,
        },
{
    let v = chars_of(location);
    assert(v@.skip(0) =~= v@);
    path_steps_from(&v, 0)
}


/// Index of the member named `key`.
fn find_member(members: &Vec<(String, JsonValue)>, key: &str) -> (r: Option<usize>)
    ensures
        match r {
            Some(j) => member_index(member_trees(members@), key@, 0) == Some(j as int) && j
                < members.len(),
            None => member_index(member_trees(members@), key@, 0) is None,
        },
{
    let ghost ms = member_trees(members@);
    proof {
        lemma_member_trees(members@);
    }
    let mut i: usize = 0;
    while i < members.len()
        invariant
            i <= members.len(),
            ms == member_trees(members@),
            ms.len() == members.len(),
            forall|j: int|
                0 <= j < members.len() ==> #[trigger] ms[j] == (
                    members@[j].0@,
                    tree(members@[j].1),
                ),
            member_index(ms, key@, 0) == member_index(ms, key@, i as int),
        decreases members.len() - i,
    {
        assert(ms[i as int].0 == members@[i as int].0@);
        if str_equal(members[i].0.as_str(), key) {
            return Some(i);
        }
        i = i + 1;
    }
    None
}

/// Puts `text` at the end of `steps[i..]` in `doc`.
fn replace_in(doc: JsonValue, steps: &Vec<JsonStep>, i: usize, text: &str) -> (r: Result<
    JsonValue,
    ReplaceFailure,
>)
    requires
        i <= steps.len(),
    ensures
        ({
            let st = step_models(steps@).skip(i as int);
            match r {
                Ok(d) => tree_at(tree(doc), st) matches Some(x) && x is Str && tree(d)
                    == tree_replace(tree(doc), st, text@),
                Err(ReplaceFailure::Missing) => tree_at(tree(doc), st) is None,
                Err(ReplaceFailure::NotText) => tree_at(tree(doc), st) matches Some(x) && !(
                x is Str),
            }
        }),
    decreases steps.len() - i,
{
    let ghost st = step_models(steps@).skip(i as int);
    let ghost t0 = tree(doc);
    if i == steps.len() {
        assert(st.len() == 0);
        return match doc {
            JsonValue::Str(_) => Ok(JsonValue::Str(owned(text))),
            _ => Err(ReplaceFailure::NotText),
        };
    }
    assert(st[0] == step_model(steps@[i as int]));
    assert(st.drop_first() =~= step_models(steps@).skip(i + 1));
    match &steps[i] {
        JsonStep::Key(k) => match doc {
            JsonValue::Object(members) => {
                match find_member(&members, k.as_str()) {
                    None => Err(ReplaceFailure::Missing),
                    Some(j) => {
                        let mut members = members;
                        let ghost before = members@;
                        proof {
                            lemma_member_trees(before);
                        }
                        let (name, child) = members.remove(j);
                        assert(before[j as int] == (name, child));
                        let replaced = match replace_in(child, steps, i + 1, text) {
                            Ok(c) => c,
                            Err(f) => {
                                return Err(f);
                            },
                        };
                        let ghost nv = (name, replaced);
                        members.insert(j, (name, replaced));
                        proof {
                            assert(members@ =~= before.update(j as int, nv));
                            lemma_member_trees(members@);
                            assert(member_trees(members@) =~= member_trees(before).update(
                                j as int,
                                (nv.0@, tree(nv.1)),
                            ));
                        }
                        Ok(JsonValue::Object(members))
                    },
                }
            },
            _ => Err(ReplaceFailure::Missing),
        },
        JsonStep::Index(n) => {
            let n = *n;
            match doc {
                JsonValue::Array(values) => {
                    if n >= values.len() {
                        proof {
                            lemma_trees(values@);
                        }
                        return Err(ReplaceFailure::Missing);
                    }
                    let mut values = values;
                    let ghost before = values@;
                    proof {
                        lemma_trees(before);
                    }
                    let child = values.remove(n);
                    assert(before[n as int] == child);
                    let replaced = match replace_in(child, steps, i + 1, text) {
                        Ok(c) => c,
                        Err(f) => {
                            return Err(f);
                        },
                    };
                    let ghost nv = replaced;
                    values.insert(n, replaced);
                    proof {
                        assert(values@ =~= before.update(n as int, nv));
                        lemma_trees(values@);
                        assert(trees(values@) =~= trees(before).update(n as int, tree(nv)));
                    }
                    Ok(JsonValue::Array(values))
                },
                _ => Err(ReplaceFailure::Missing),
            }
        },
    }
}

/// Once putting the translations in place fails, later ones do not change the outcome.
pub proof fn lemma_apply_all_stops(t: JsonTree, reps: Seq<(Seq<char>, Seq<char>)>, j: int)
    requires
        0 <= j <= reps.len(),
        apply_all(t, reps.take(j)) is Err,
    ensures
        apply_all(t, reps) == apply_all(t, reps.take(j)),
    decreases reps.len(),
{
    if reps.len() == j {
        assert(reps.take(j) =~= reps);
    } else {
        assert(reps.drop_last().take(j) =~= reps.take(j));
        lemma_apply_all_stops(t, reps.drop_last(), j);
    }
}

/// Puts each `(location, text)` in place in turn.
pub fn apply_replacements(document: JsonValue, replacements: &Vec<(String, String)>) -> (r: Result<
    JsonValue,
    (String, ReplaceFailure),
>)
    ensures
        match (r, apply_all(tree(document), replacement_models(replacements@))) {
            (Ok(d), Ok(t)) => tree(d) == t,
            (Err((location, f)), Err((l, g))) => location@ == l && f == g,
            _ => false,
        },
{
    let ghost reps = replacement_models(replacements@);
    let ghost t0 = tree(document);
    let mut doc = document;
    let mut k: usize = 0;
    assert(reps.take(0) =~= Seq::<(Seq<char>, Seq<char>)>::empty());
    while k < replacements.len()
        invariant
            k <= replacements.len(),
            reps == replacement_models(replacements@),
            reps.len() == replacements.len(),
            t0 == tree(document),
            apply_all(t0, reps.take(k as int)) == Ok::<JsonTree, (Seq<char>, ReplaceFailure)>(
                tree(doc),
            ),
        decreases replacements.len() - k,
    {
        assert(reps.take(k + 1).drop_last() =~= reps.take(k as int));
        assert(reps.take(k + 1).last() == reps[k as int]);
        let location = replacements[k].0.as_str();
        let value = replacements[k].1.as_str();
        let steps = match json_path_steps(location) {
            Some(st) => st,
            None => {
                proof {
                    lemma_apply_all_stops(t0, reps, k + 1);
                }
                return Err((owned(location), ReplaceFailure::Missing));
            },
        };
        assert(step_models(steps@).skip(0) =~= step_models(steps@));
        doc = match replace_in(doc, &steps, 0, value) {
            Ok(d) => d,
            Err(f) => {
                proof {
                    lemma_apply_all_stops(t0, reps, k + 1);
                }
                return Err((owned(location), f));
            },
        };
        k = k + 1;
    }
    assert(reps.take(replacements.len() as int) =~= reps);
    Ok(doc)
}

pub open spec fn replacement_models(r: Seq<(String, String)>) -> Seq<(Seq<char>, Seq<char>)> {
    r.map_values(|p: (String, String)| (p.0@, p.1@))
}


/// The translations of a file's segments, each as `(location, translation)`, in order.
pub open spec fn file_replacements(table: Seq<(Seq<char>, Seq<char>)>, segs: Seq<SegmentModel>) -> Seq<
    (Seq<char>, Seq<char>),
>
    decreases segs.len(),
{
    if segs.len() == 0 {
        Seq::empty()
    } else {
        let before = file_replacements(table, segs.drop_last());
        match lookup(table, segs.last().id) {
            Some(t) => before.push((segs.last().location, t)),
            None => before,
        }
    }
}

/// `path` relative to `root` (`Path::strip_prefix`), where `path` lies below it.
pub open spec fn strip_root(root: Seq<char>, path: Seq<char>) -> Option<Seq<char>> {
    let prefix = if root.len() == 0 {
        root
    } else if root.last() == '/' || root.last() == '\\' {
        root
    } else {
        root.push('/')
    };
    if prefix.len() <= path.len() && path.take(prefix.len() as int) == prefix {
        Some(path.skip(prefix.len() as int))
    } else {
        None
    }
}

/// The translated copy of one data file, if any of its segments has a
/// translation, or the error making it gives.
pub open spec fn written_file(
    root: Seq<char>,
    output_root: Seq<char>,
    data_dir: Seq<char>,
    table: Seq<(Seq<char>, Seq<char>)>,
    file: DataFile,
) -> Result<Option<(Seq<char>, Seq<char>)>, Fault> {
    let path = join_path(data_dir, file.name@);
    match data_file_segments(data_dir, file) {
        Err(f) => Err(f),
        Ok(segs) => {
            let reps = file_replacements(table, segs);
            if reps.len() == 0 {
                Ok(None)
            } else {
                match file.content {
                    Err(m) => Err(Fault::Io(path, m@)),
                    Ok(t) => match parsed_json(t@) {
                        Err(m) => Err(Fault::InvalidData(path, m)),
                        Ok(doc) => match apply_all(doc, reps) {
                            Err((location, f)) => Err(
                                Fault::InvalidData(path, replace_message(location, f)),
                            ),
                            Ok(d) => match strip_root(root, path) {
                                None => Err(Fault::InvalidData(path, "prefix not found"@)),
                                Some(rel) => Ok(Some((join_path(output_root, rel), pretty_json(d)))),
                            },
                        },
                    },
                }
            }
        },
    }
}

/// The translated copies of `files[i..]`, in order, or the first error.
pub open spec fn written_from(
    root: Seq<char>,
    output_root: Seq<char>,
    data_dir: Seq<char>,
    table: Seq<(Seq<char>, Seq<char>)>,
    files: Seq<DataFile>,
    i: int,
) -> Result<Seq<(Seq<char>, Seq<char>)>, Fault>
    decreases files.len() - i,
{
    if i < 0 || i >= files.len() {
        Ok(Seq::empty())
    } else {
        match written_file(root, output_root, data_dir, table, files[i]) {
            Err(f) => Err(f),
            Ok(head) => match written_from(root, output_root, data_dir, table, files, i + 1) {
                Err(f) => Err(f),
                Ok(rest) => Ok(
                    match head {
                        Some(w) => seq![w] + rest,
                        None => rest,
                    },
                ),
            },
        }
    }
}

/// What writing the translations of the sorted data files gives.
pub open spec fn rpg_written(
    project: DetectedProject,
    output_root: Seq<char>,
    table: Seq<(Seq<char>, Seq<char>)>,
    files: Seq<DataFile>,
) -> Result<Seq<(Seq<char>, Seq<char>)>, Fault> {
    match project_segments(project.data_dir@, files, 0) {
        Err(f) => Err(f),
        Ok(_) => written_from(project.root@, output_root, project.data_dir@, table, files, 0),
    }
}

pub open spec fn written_result(r: Result<Vec<OutputFile>, EngineError>) -> Result<
    Seq<(Seq<char>, Seq<char>)>,
    Fault,
> {
    match r {
        Ok(v) => Ok(output_models(v@)),
        Err(e) => Err(e@),
    }
}

/// `path` relative to `root`.
pub(crate) fn strip_root_exec(root: &str, path: &str) -> (r: Option<String>)
    ensures
        match r {
            Some(s) => strip_root(root@, path@) == Some(s@),
            None => strip_root(root@, path@) is None,
        },
{
    let r = chars_of(root);
    let p = chars_of(path);
    let mut prefix = r;
    if prefix.len() > 0 && prefix[prefix.len() - 1] != '/' && prefix[prefix.len() - 1] != '\\' {
        prefix.push('/');
    }
    if prefix.len() > p.len() {
        return None;
    }
    let head = crate::text::slice_chars(&p, 0, prefix.len());
    assert(head@ =~= p@.take(prefix.len() as int));
    if !crate::text::chars_equal(&head, &prefix) {
        return None;
    }
    let rest = crate::text::slice_chars(&p, prefix.len(), p.len());
    assert(rest@ =~= p@.skip(prefix.len() as int));
    Some(crate::text::string_from(&rest))
}

/// The translations of a file's segments.
fn replacements_of(table: &TranslationTable, segs: &Vec<Segment>) -> (r: Vec<(String, String)>)
    ensures
        replacement_models(r@) == file_replacements(table.model(), segment_models(segs@)),
{
    let ghost m = segment_models(segs@);
    let mut out: Vec<(String, String)> = Vec::new();
    let mut i: usize = 0;
    assert(m.take(0) =~= Seq::<SegmentModel>::empty());
    assert(replacement_models(out@) =~= Seq::<(Seq<char>, Seq<char>)>::empty());
    while i < segs.len()
        invariant
            i <= segs.len(),
            m == segment_models(segs@),
            replacement_models(out@) == file_replacements(table.model(), m.take(i as int)),
        decreases segs.len() - i,
    {
        assert(m.take(i + 1).drop_last() =~= m.take(i as int));
        assert(m.take(i + 1).last() == segs@[i as int]@);
        match table.get(segs[i].id.as_str()) {
            Some(t) => {
                let ghost before = out@;
                out.push((owned(segs[i].location.as_str()), owned(t.as_str())));
                assert(replacement_models(out@) =~= replacement_models(before).push(
                    (segs@[i as int].location@, t@),
                ));
            },
            None => {},
        }
        i = i + 1;
    }
    assert(m.take(segs.len() as int) =~= m);
    out
}

fn replace_error(path: String, location: &str, failure: ReplaceFailure) -> (e: EngineError)
    ensures
        e@ == Fault::InvalidData(path@, replace_message(location@, failure)),
{
    let mut message = String::new();
    match failure {
        ReplaceFailure::Missing => push_str(&mut message, "translation path no longer exists: "),
        ReplaceFailure::NotText => push_str(&mut message, "translation path is not a string: "),
    }
    push_str(&mut message, location);
    proof {
        reveal_strlit("translation path no longer exists: ");
        reveal_strlit("translation path is not a string: ");
    }
    EngineError::InvalidData { path, message }
}

/// The translated copy of one data file.
fn write_file(
    root: &str,
    output_root: &str,
    data_dir: &str,
    table: &TranslationTable,
    file: &DataFile,
) -> (r: Result<Option<OutputFile>, EngineError>)
    ensures
        match (r, written_file(root@, output_root@, data_dir@, table.model(), *file)) {
            (Ok(Some(o)), Ok(Some(w))) => (o.path@, o.content@) == w,
            (Ok(None), Ok(None)) => true,
            (Err(e), Err(f)) => e@ == f,
            _ => false,
        },
{
    let segs = match data_file_segments_exec(data_dir, file) {
        Ok(s) => s,
        Err(e) => {
            return Err(e);
        },
    };
    let reps = replacements_of(table, &segs);
    if reps.len() == 0 {
        return Ok(None);
    }
    let path = join(data_dir, file.name.as_str());
    let doc = match read_json(path.as_str(), &file.content) {
        Err(e) => {
            return Err(e);
        },
        Ok(d) => d,
    };
    let done = match apply_replacements(doc, &reps) {
        Err((location, f)) => {
            return Err(replace_error(path, location.as_str(), f));
        },
        Ok(d) => d,
    };
    let rel = match strip_root_exec(root, path.as_str()) {
        None => {
            proof {
                reveal_strlit("prefix not found");
            }
            return Err(EngineError::InvalidData { path, message: owned("prefix not found") });
        },
        Some(r) => r,
    };
    let target = join(output_root, rel.as_str());
    let content = render_json_pretty(&done);
    Ok(Some(OutputFile { path: target, content }))
}

fn written_from_exec(
    root: &str,
    output_root: &str,
    data_dir: &str,
    table: &TranslationTable,
    files: &Vec<DataFile>,
    i: usize,
) -> (r: Result<Vec<OutputFile>, EngineError>)
    requires
        i <= files.len(),
    ensures
        written_result(r) == written_from(root@, output_root@, data_dir@, table.model(), files@, i as int),
    decreases files.len() - i,
{
    if i >= files.len() {
        let v: Vec<OutputFile> = Vec::new();
        assert(output_models(v@) =~= Seq::<(Seq<char>, Seq<char>)>::empty());
        return Ok(v);
    }
    let head = match write_file(root, output_root, data_dir, table, &files[i]) {
        Ok(h) => h,
        Err(e) => {
            return Err(e);
        },
    };
    let rest = match written_from_exec(root, output_root, data_dir, table, files, i + 1) {
        Ok(r) => r,
        Err(e) => {
            return Err(e);
        },
    };
    match head {
        None => Ok(rest),
        Some(o) => {
            let ghost w = (o.path@, o.content@);
            let mut out: Vec<OutputFile> = Vec::new();
            out.push(o);
            let ghost a = out@;
            let mut rest = rest;
            let ghost b = rest@;
            out.append(&mut rest);
            assert(out@ =~= a + b);
            assert(output_models(a) =~= seq![w]);
            assert(output_models(out@) =~= output_models(a) + output_models(b));
            Ok(out)
        },
    }
}

/// Writes translated strings into a separate project-shaped directory: one
/// copy of each data file that has a translated segment, below `output_root`
/// at the file's place relative to the project root, with each translation put
/// in place of its source text.
///
/// `listing` is as for [`extract_project`]; the result lists the files to
/// write, in name order, with their bytes.
pub fn write_translations(
    project: &DetectedProject,
    translations: &TranslationTable,
    output_root: &str,
    listing: Result<Vec<DataFile>, String>,
) -> (r: Result<Vec<OutputFile>, EngineError>)
    ensures
        listing matches Err(m) ==> written_result(r) == Err::<Seq<(Seq<char>, Seq<char>)>, Fault>(
            Fault::Io(project.data_dir@, m@),
        ),
        listing matches Ok(files) ==> exists|sorted: Seq<DataFile>|
            #![trigger stably_sorted(json_files(files@), sorted), rpg_written(*project, output_root@, translations.model(), sorted)]
            stably_sorted(json_files(files@), sorted)
                && written_result(r) == rpg_written(
                *project,
                output_root@,
                translations.model(),
                sorted,
            ),
{
    let files = match listing {
        Err(m) => {
            return Err(EngineError::Io { path: owned(project.data_dir.as_str()), message: m });
        },
        Ok(f) => f,
    };
    let selected = select_json_files(files);
    let sorted = sort_by_key(selected);
    let ghost expected = rpg_written(*project, output_root@, translations.model(), sorted@);
    assert(sorted_by_key(sorted@));
    match project_segments_from(project.data_dir.as_str(), &sorted, 0) {
        Err(e) => {
            assert(written_result(Err::<Vec<OutputFile>, EngineError>(e)) == expected);
            return Err(e);
        },
        Ok(_) => {},
    }
    let r = written_from_exec(
        project.root.as_str(),
        output_root,
        project.data_dir.as_str(),
        translations,
        &sorted,
        0,
    );
    assert(written_result(r) == expected);
    r
}

} // verus!
