use crate::content::{
    join, join_path, opt_text, output_models, segment_models, ContextModel, DetectedProject,
    EngineError, EngineKind, Fault, OutputFile, Segment, SegmentContext, SegmentKind, SegmentModel,
};
use crate::translations::{lookup, TranslationTable};
use crate::order::{sort_by_key, sorted_by_key, text_before, text_key, SortKey, stably_sorted};
use crate::rimworld::{eq_ignore_ascii_case, equal_ignoring_ascii_case};
use crate::text::{
    chars_equal, chars_of, decimal, find_char, find_char_from, is_space, is_space_char,
    lemma_find_char, lemma_find_char_skip, owned, push_chars, push_decimal, push_str, slice_chars,
    string_from, trim, trim_chars, trim_start,
};
use vstd::prelude::*;

verus! {

/// A line without the `\r` of a `\r\n` ending.
pub open spec fn strip_cr(l: Seq<char>) -> Seq<char> {
    if l.len() > 0 && l.last() == '\r' {
        l.drop_last()
    } else {
        l
    }
}

/// The lines of a text (`str::lines`).
pub open spec fn text_lines(t: Seq<char>) -> Seq<Seq<char>>
    decreases t.len(),
{
    if t.len() == 0 {
        Seq::empty()
    } else {
        match find_char(t, '\n', 0) {
            None => seq![t],
            Some(k) => seq![strip_cr(t.take(k))] + text_lines(
                t.skip(
                    {
                        proof {
                            lemma_find_char(t, '\n', 0);
                        }
                        k + 1
                    },
                ),
            ),
        }
    }
}

/// Whether `s` begins with `p`.
pub open spec fn starts_with(s: Seq<char>, p: Seq<char>) -> bool {
    p.len() <= s.len() && s.take(p.len() as int) == p
}

/// `s` without trailing colons.
pub open spec fn trim_end_colons(s: Seq<char>) -> Seq<char>
    decreases s.len(),
{
    if s.len() > 0 && s.last() == ':' {
        trim_end_colons(s.drop_last())
    } else {
        s
    }
}

/// The block name of a `translate <language> <block>:` header, from the part
/// after `translate `.
pub open spec fn block_of(header: Seq<char>) -> Seq<char> {
    let h = trim_end_colons(header);
    match find_char(h, ' ', 0) {
        Some(k) => h.skip(k + 1),
        None => header,
    }
}

/// Position of the last `c` in `s`.
pub open spec fn last_index(s: Seq<char>, c: char) -> Option<int>
    decreases s.len(),
{
    if s.len() == 0 {
        None
    } else if s.last() == c {
        Some(s.len() - 1)
    } else {
        last_index(s.drop_last(), c)
    }
}

/// `s` with every occurrence of `pat` replaced by `rep`, left to right.
pub open spec fn replace_all(s: Seq<char>, pat: Seq<char>, rep: Seq<char>) -> Seq<char>
    decreases s.len(),
{
    if s.len() == 0 {
        Seq::empty()
    } else if pat.len() > 0 && starts_with(s, pat) {
        rep + replace_all(s.skip(pat.len() as int), pat, rep)
    } else {
        seq![s[0]] + replace_all(s.drop_first(), pat, rep)
    }
}

/// The text between the first and the last double quote, with `\"` and `\n`
/// read as a quote and a line break.
pub open spec fn quoted_text(s: Seq<char>) -> Option<Seq<char>> {
    match (find_char(s, '"', 0), last_index(s, '"')) {
        (Some(start), Some(end)) => if end > start {
            Some(
                replace_all(
                    replace_all(s.subrange(start + 1, end), "\\\""@, "\""@),
                    "\\n"@,
                    "\n"@,
                ),
            )
        } else {
            None
        },
        _ => None,
    }
}

/// Length of the leading run of non-space characters.
pub open spec fn word_len(s: Seq<char>) -> nat
    decreases s.len(),
{
    if s.len() > 0 && !is_space(s[0]) {
        1 + word_len(s.drop_first())
    } else {
        0
    }
}

/// The first white-space separated word (`split_whitespace().next()`).
pub open spec fn first_word(s: Seq<char>) -> Option<Seq<char>> {
    let t = trim_start(s);
    if t.len() == 0 {
        None
    } else {
        Some(t.take(word_len(t) as int))
    }
}

/// `relative::block::line`.
pub open spec fn template_location(relative: Seq<char>, block: Seq<char>, line: nat) -> Seq<char> {
    relative + "::"@ + block + "::"@ + decimal(line)
}

/// The segment of a template line.
pub open spec fn renpy_segment(
    source_file: Seq<char>,
    relative: Seq<char>,
    block: Seq<char>,
    line: nat,
    source: Seq<char>,
    kind: SegmentKind,
    speaker: Option<Seq<char>>,
) -> SegmentModel {
    SegmentModel {
        id: "renpy:"@ + template_location(relative, block, line),
        source,
        source_file,
        location: template_location(relative, block, line),
        kind,
        context: ContextModel { speaker, previous_text: None, next_text: None },
    }
}

/// The block that a line opens, if it is a `translate` header.
pub open spec fn next_block(block: Seq<char>, trimmed: Seq<char>) -> Seq<char> {
    if starts_with(trimmed, "translate "@) {
        block_of(trimmed.skip(10))
    } else {
        block
    }
}

/// Reading a template: the current block and the segments of `lines`.
pub open spec fn template_scan(source_file: Seq<char>, relative: Seq<char>, lines: Seq<Seq<char>>) -> (
    Seq<char>,
    Seq<SegmentModel>,
)
    decreases lines.len(),
{
    if lines.len() == 0 {
        (Seq::empty(), Seq::empty())
    } else {
        let (block0, segs) = template_scan(source_file, relative, lines.drop_last());
        let line = (lines.len()) as nat;
        let t = trim(lines.last());
        let block = next_block(block0, t);
        if starts_with(t, "# "@) {
            let comment = t.skip(2);
            match quoted_text(comment) {
                Some(src) => (
                    block,
                    segs.push(
                        renpy_segment(
                            source_file,
                            relative,
                            block,
                            line,
                            src,
                            SegmentKind::Dialogue,
                            first_word(comment),
                        ),
                    ),
                ),
                None => (block, segs),
            }
        } else if starts_with(t, "old "@) {
            match quoted_text(t.skip(4)) {
                Some(src) => (
                    block,
                    segs.push(
                        renpy_segment(
                            source_file,
                            relative,
                            block,
                            line,
                            src,
                            SegmentKind::Choice,
                            None,
                        ),
                    ),
                ),
                None => (block, segs),
            }
        } else {
            (block, segs)
        }
    }
}

/// The segments of a template file's text.
pub open spec fn template_segments(source_file: Seq<char>, relative: Seq<char>, text: Seq<char>) -> Seq<
    SegmentModel,
> {
    template_scan(source_file, relative, text_lines(text)).1
}

/// The lines of a text.
pub fn lines_of(text: &str) -> (r: Vec<Vec<char>>)
    ensures
        r@.map_values(|l: Vec<char>| l@) == text_lines(text@),
{
    let v = chars_of(text);
    let mut out: Vec<Vec<char>> = Vec::new();
    let mut start: usize = 0;
    assert(v@.skip(0) =~= v@);
    while start < v.len()
        invariant
            start <= v.len(),
            v@ == text@,
            text_lines(v@) == out@.map_values(|l: Vec<char>| l@) + text_lines(v@.skip(start as int)),
        decreases v.len() - start,
    {
        let ghost rest = v@.skip(start as int);
        proof {
            lemma_find_char_skip(v@, '\n', start as int, 0);
            lemma_find_char(v@, '\n', start as int);
        }
        let ghost before = out@;
        match find_char_from(&v, '\n', start) {
            None => {
                let line = slice_chars(&v, start, v.len());
                assert(line@ =~= rest);
                out.push(line);
                assert(v@.skip(v.len() as int) =~= Seq::<char>::empty());
                assert(out@.map_values(|l: Vec<char>| l@) =~= before.map_values(
                    |l: Vec<char>| l@,
                ).push(rest));
                start = v.len();
            },
            Some(q) => {
                let mut end = q;
                if end > start && v[end - 1] == '\r' {
                    end = end - 1;
                }
                let line = slice_chars(&v, start, end);
                assert(line@ =~= strip_cr(rest.take(q - start)));
                out.push(line);
                assert(rest.skip(q - start + 1) =~= v@.skip(q + 1));
                assert(out@.map_values(|l: Vec<char>| l@) =~= before.map_values(
                    |l: Vec<char>| l@,
                ).push(line@));
                start = q + 1;
            },
        }
    }
    assert(v@.skip(start as int) =~= Seq::<char>::empty());
    assert(out@.map_values(|l: Vec<char>| l@) =~= out@.map_values(|l: Vec<char>| l@) + Seq::<
        Seq<char>,
    >::empty());
    out
}

/// Whether `s` begins with `p`.
pub fn begins_with(s: &Vec<char>, p: &str) -> (r: bool)
    ensures
        r == starts_with(s@, p@),
{
    let q = chars_of(p);
    if q.len() > s.len() {
        return false;
    }
    let head = slice_chars(s, 0, q.len());
    assert(head@ =~= s@.take(q@.len() as int));
    chars_equal(&head, &q)
}

/// The block name of a `translate` header.
fn block_name(header: &Vec<char>) -> (r: Vec<char>)
    ensures
        r@ == block_of(header@),
{
    let mut end = header.len();
    assert(header@.take(header.len() as int) =~= header@);
    while end > 0 && header[end - 1] == ':'
        invariant
            end <= header.len(),
            trim_end_colons(header@) == trim_end_colons(header@.take(end as int)),
        decreases end,
    {
        assert(header@.take(end as int).drop_last() =~= header@.take(end - 1));
        end = end - 1;
    }
    assert(header@.take(header.len() as int) =~= header@);
    let h = slice_chars(header, 0, end);
    assert(h@ =~= header@.take(end as int));
    assert(trim_end_colons(h@) == h@);
    proof {
        lemma_find_char(h@, ' ', 0);
    }
    match find_char_from(&h, ' ', 0) {
        Some(k) => slice_chars(&h, k + 1, h.len()),
        None => slice_chars(header, 0, header.len()),
    }
}

/// Position of the last `c` in `v`.
pub(crate) fn last_index_of(v: &Vec<char>, c: char) -> (r: Option<usize>)
    ensures
        match r {
            Some(k) => last_index(v@, c) == Some(k as int),
            None => last_index(v@, c) is None,
        },
{
    let mut end = v.len();
    assert(v@.take(v.len() as int) =~= v@);
    while end > 0
        invariant
            end <= v.len(),
            last_index(v@, c) == last_index(v@.take(end as int), c),
        decreases end,
    {
        assert(v@.take(end as int).drop_last() =~= v@.take(end - 1));
        if v[end - 1] == c {
            return Some(end - 1);
        }
        end = end - 1;
    }
    None
}

/// Every occurrence of `pat` in `s` replaced by `rep`.
pub(crate) fn replace_all_exec(s: &Vec<char>, pat: &str, rep: &str) -> (r: Vec<char>)
    ensures
        r@ == replace_all(s@, pat@, rep@),
{
    let p = chars_of(pat);
    let q = chars_of(rep);
    let mut out: Vec<char> = Vec::new();
    let mut i: usize = 0;
    assert(s@.skip(0) =~= s@);
    while i < s.len()
        invariant
            i <= s.len(),
            p@ == pat@,
            q@ == rep@,
            replace_all(s@, pat@, rep@) == out@ + replace_all(s@.skip(i as int), pat@, rep@),
        decreases s.len() - i,
    {
        let ghost rest = s@.skip(i as int);
        let mut hit = p.len() > 0 && p.len() <= s.len() - i;
        if hit {
            let head = slice_chars(s, i, i + p.len());
            assert(head@ =~= rest.take(p@.len() as int));
            hit = chars_equal(&head, &p);
        }
        let ghost before = out@;
        if hit {
            let mut k: usize = 0;
            while k < q.len()
                invariant
                    k <= q.len(),
                    out@ == before + q@.take(k as int),
                decreases q.len() - k,
            {
                out.push(q[k]);
                k = k + 1;
                assert(out@ =~= before + q@.take(k as int));
            }
            assert(q@.take(q.len() as int) =~= q@);
            assert(rest.skip(p@.len() as int) =~= s@.skip(i + p.len()));
            assert(out@ + replace_all(s@.skip(i + p.len()), pat@, rep@) =~= before + (rep@
                + replace_all(rest.skip(pat@.len() as int), pat@, rep@)));
            i = i + p.len();
        } else {
            out.push(s[i]);
            assert(rest.drop_first() =~= s@.skip(i + 1));
            assert(rest[0] == s@[i as int]);
            assert(out@ + replace_all(s@.skip(i + 1), pat@, rep@) =~= before + (seq![rest[0]]
                + replace_all(rest.drop_first(), pat@, rep@)));
            i = i + 1;
        }
    }
    assert(s@.skip(s.len() as int) =~= Seq::<char>::empty());
    assert(out@ + Seq::<char>::empty() =~= out@);
    out
}

/// The text between the first and the last double quote, unescaped.
pub fn quoted(s: &Vec<char>) -> (r: Option<Vec<char>>)
    ensures
        match r {
            Some(t) => quoted_text(s@) == Some(t@),
            None => quoted_text(s@) is None,
        },
{
    let start = match find_char_from(s, '"', 0) {
        Some(k) => k,
        None => {
            return None;
        },
    };
    proof {
        lemma_find_char(s@, '"', 0);
    }
    let end = match last_index_of(s, '"') {
        Some(k) => k,
        None => {
            return None;
        },
    };
    if end <= start {
        return None;
    }
    proof {
        lemma_last_index(s@, '"');
    }
    let inner = slice_chars(s, start + 1, end);
    let once = replace_all_exec(&inner, "\\\"", "\"");
    Some(replace_all_exec(&once, "\\n", "\n"))
}

pub proof fn lemma_last_index(s: Seq<char>, c: char)
    ensures
        last_index(s, c) matches Some(k) ==> 0 <= k < s.len(),
    decreases s.len(),
{
    if s.len() > 0 && s.last() != c {
        lemma_last_index(s.drop_last(), c);
    }
}

/// The first white-space separated word.
fn first_word_exec(s: &Vec<char>) -> (r: Option<String>)
    ensures
        opt_text(r) == first_word(s@),
{
    let mut a: usize = 0;
    while a < s.len() && is_space_char(s[a])
        invariant
            a <= s.len(),
            forall|j: int| 0 <= j < a ==> is_space(#[trigger] s@[j]),
        decreases s.len() - a,
    {
        a = a + 1;
    }
    proof {
        crate::text::lemma_leading_space_is(s@, a as int);
    }
    if a == s.len() {
        return None;
    }
    let mut b = a;
    let ghost t = s@.skip(a as int);
    while b < s.len() && !is_space_char(s[b])
        invariant
            a <= b <= s.len(),
            t == s@.skip(a as int),
            word_len(t) == (b - a) + word_len(s@.skip(b as int)),
        decreases s.len() - b,
    {
        assert(s@.skip(b as int).drop_first() =~= s@.skip(b + 1));
        b = b + 1;
    }
    assert(word_len(s@.skip(b as int)) == 0);
    let w = slice_chars(s, a, b);
    assert(w@ =~= t.take(word_len(t) as int));
    Some(string_from(&w))
}

fn template_location_text(relative: &str, block: &Vec<char>, line: usize) -> (r: String)
    ensures
        r@ == template_location(relative@, block@, line as nat),
{
    let mut s = owned(relative);
    push_str(&mut s, "::");
    push_chars(&mut s, block);
    push_str(&mut s, "::");
    push_decimal(&mut s, line as u64);
    proof {
        reveal_strlit("::");
    }
    s
}

fn renpy_segment_exec(
    source_file: &str,
    relative: &str,
    block: &Vec<char>,
    line: usize,
    source: &Vec<char>,
    kind: SegmentKind,
    speaker: Option<String>,
) -> (s: Segment)
    ensures
        s@ == renpy_segment(
            source_file@,
            relative@,
            block@,
            line as nat,
            source@,
            kind,
            opt_text(speaker),
        ),
{
    let location = template_location_text(relative, block, line);
    let mut id = owned("renpy:");
    push_str(&mut id, location.as_str());
    proof {
        reveal_strlit("renpy:");
    }
    Segment {
        id,
        source: string_from(source),
        source_file: owned(source_file),
        location,
        kind,
        context: SegmentContext { speaker, previous_text: None, next_text: None },
    }
}

/// The segments of one template file: the source lines of dialogue (`# ...`)
/// and of strings (`old ...`), each keyed by its file, block and line.
pub fn parse_template(source_file: &str, relative: &str, text: &str) -> (r: Vec<Segment>)
    ensures
        segment_models(r@) == template_segments(source_file@, relative@, text@),
{
    proof {
        reveal_strlit("translate ");
        reveal_strlit("# ");
        reveal_strlit("old ");
    }
    let lines = lines_of(text);
    let ghost ls = lines@.map_values(|l: Vec<char>| l@);
    let mut block: Vec<char> = Vec::new();
    let mut segments: Vec<Segment> = Vec::new();
    let mut i: usize = 0;
    assert(ls.take(0) =~= Seq::<Seq<char>>::empty());
    assert(segment_models(segments@) =~= Seq::<SegmentModel>::empty());
    while i < lines.len()
        invariant
            i <= lines.len(),
            ls == lines@.map_values(|l: Vec<char>| l@),
            (block@, segment_models(segments@)) == template_scan(
                source_file@,
                relative@,
                ls.take(i as int),
            ),
        decreases lines.len() - i,
    {
        assert(ls.take(i + 1).drop_last() =~= ls.take(i as int));
        assert(ls.take(i + 1).last() == lines@[i as int]@);
        proof {
            reveal_strlit("translate ");
            reveal_strlit("# ");
            reveal_strlit("old ");
        }
        let t = trim_chars(&lines[i]);
        if begins_with(&t, "translate ") {
            let header = slice_chars(&t, 10, t.len());
            assert(header@ =~= t@.skip(10));
            block = block_name(&header);
        }
        let ghost before = segments@;
        if begins_with(&t, "# ") {
            let comment = slice_chars(&t, 2, t.len());
            assert(comment@ =~= t@.skip(2));
            if let Some(src) = quoted(&comment) {
                let speaker = first_word_exec(&comment);
                let seg = renpy_segment_exec(
                    source_file,
                    relative,
                    &block,
                    i + 1,
                    &src,
                    SegmentKind::Dialogue,
                    speaker,
                );
                segments.push(seg);
                assert(segment_models(segments@) =~= segment_models(before).push(seg@));
            }
        } else if begins_with(&t, "old ") {
            let old = slice_chars(&t, 4, t.len());
            assert(old@ =~= t@.skip(4));
            if let Some(src) = quoted(&old) {
                let seg = renpy_segment_exec(
                    source_file,
                    relative,
                    &block,
                    i + 1,
                    &src,
                    SegmentKind::Choice,
                    None,
                );
                segments.push(seg);
                assert(segment_models(segments@) =~= segment_models(before).push(seg@));
            }
        }
        i = i + 1;
    }
    assert(ls.take(lines.len() as int) =~= ls);
    segments
}


/// The extension of a file name (`Path::extension`): the text after the last
/// dot, where something comes before that dot.
pub open spec fn extension(name: Seq<char>) -> Option<Seq<char>> {
    match last_index(name, '.') {
        Some(k) => if k > 0 {
            Some(name.skip(k + 1))
        } else {
            None
        },
        None => None,
    }
}

/// Whether a file name has the extension `ext`, in any ASCII case.
pub open spec fn has_extension(name: Seq<char>, ext: Seq<char>) -> bool {
    match extension(name) {
        Some(e) => eq_ignore_ascii_case(e, ext),
        None => false,
    }
}

/// Whether a file name has the extension `ext`, in any ASCII case.
pub fn name_has_extension(name: &str, ext: &str) -> (r: bool)
    ensures
        r == has_extension(name@, ext@),
{
    let v = chars_of(name);
    proof {
        lemma_last_index(v@, '.');
    }
    match last_index_of(&v, '.') {
        Some(k) => if k > 0 {
            assert(k < v.len());
            let e = slice_chars(&v, k + 1, v.len());
            assert(e@ =~= v@.skip(k + 1));
            let e = string_from(&e);
            equal_ignoring_ascii_case(e.as_str(), ext)
        } else {
            false
        },
        None => false,
    }
}

/// Whether one of `names` has the extension `exe` or `py`.
pub open spec fn has_launcher(names: Seq<String>) -> bool {
    exists|i: int|
        0 <= i < names.len() && (has_extension(#[trigger] names[i]@, "exe"@) || has_extension(
            names[i]@,
            "py"@,
        ))
}

pub open spec fn launcher_path(root: Seq<char>) -> Seq<char> {
    join_path(root, "<game launcher>"@)
}

/// What detecting a Ren'Py distribution gives: its game directory, or the error.
pub open spec fn renpy_detect(
    root: Seq<char>,
    renpy_is_dir: bool,
    game_is_dir: bool,
    listing: Result<Seq<String>, Seq<char>>,
) -> Result<Seq<char>, Fault> {
    if !renpy_is_dir || !game_is_dir {
        Err(Fault::Unsupported)
    } else {
        match listing {
            Err(m) => Err(Fault::Io(root, m)),
            Ok(names) => if has_launcher(names) {
                Ok(join_path(root, "game"@))
            } else {
                Err(Fault::MissingFile(launcher_path(root)))
            },
        }
    }
}

pub open spec fn listing_model(l: Result<Vec<String>, String>) -> Result<Seq<String>, Seq<char>> {
    match l {
        Ok(v) => Ok(v@),
        Err(m) => Err(m@),
    }
}

/// Detects a Ren'Py distribution: `renpy` and `game` directories below `root`,
/// and a launcher (an `.exe` or `.py` file) among the entries of `root`.
///
/// `listing` holds the names of the entries of `root`, or the message of the
/// error that listing it gave.
pub fn detect_project(
    root: &str,
    renpy_is_dir: bool,
    game_is_dir: bool,
    listing: &Result<Vec<String>, String>,
) -> (r: Result<DetectedProject, EngineError>)
    ensures
        match (r, renpy_detect(root@, renpy_is_dir, game_is_dir, listing_model(*listing))) {
            (Ok(p), Ok(game)) => p.root@ == root@ && p.data_dir@ == game && p.engine
                == EngineKind::RenPy,
            (Err(e), Err(f)) => e@ == f,
            _ => false,
        },
{
    proof {
        reveal_strlit("exe");
        reveal_strlit("py");
        reveal_strlit("game");
        reveal_strlit("<game launcher>");
    }
    if !renpy_is_dir || !game_is_dir {
        return Err(EngineError::UnsupportedProject);
    }
    let names = match listing {
        Err(m) => {
            return Err(EngineError::Io { path: owned(root), message: owned(m.as_str()) });
        },
        Ok(n) => n,
    };
    let mut i: usize = 0;
    while i < names.len()
        invariant
            i <= names.len(),
            renpy_is_dir && game_is_dir,
            listing_model(*listing) == Ok::<Seq<String>, Seq<char>>(names@),
            forall|j: int|
                0 <= j < i ==> !(has_extension(#[trigger] names@[j]@, "exe"@) || has_extension(
                    names@[j]@,
                    "py"@,
                )),
        decreases names.len() - i,
    {
        if name_has_extension(names[i].as_str(), "exe") || name_has_extension(
            names[i].as_str(),
            "py",
        ) {
            proof {
                let k = i as int;
                assert(has_extension(names@[k]@, "exe"@) || has_extension(names@[k]@, "py"@));
                assert(has_launcher(names@));
            }
            return Ok(
                DetectedProject {
                    root: owned(root),
                    data_dir: join(root, "game"),
                    engine: EngineKind::RenPy,
                },
            );
        }
        i = i + 1;
    }
    Err(EngineError::MissingRequiredFile(join(root, "<game launcher>")))
}

/// What a character of a language code becomes in a Ren'Py identifier.
pub open spec fn identifier_char(c: char) -> char {
    if ('a' <= c && c <= 'z') || ('A' <= c && c <= 'Z') || ('0' <= c && c <= '9') || c == '_' {
        c
    } else {
        '_'
    }
}

/// A language code as a Ren'Py identifier: each character that is not an
/// ASCII letter, digit or `_` becomes `_`, and an identifier that would start
/// with a digit, or be empty, gets a leading `_`.
pub open spec fn renpy_identifier(code: Seq<char>) -> Seq<char> {
    let body = code.map_values(|c: char| identifier_char(c));
    if code.len() == 0 || ('0' <= code[0] && code[0] <= '9') {
        seq!['_'] + body
    } else {
        body
    }
}

/// Whether text is a valid Ren'Py identifier: not empty, only ASCII letters,
/// digits and `_`, and not starting with a digit.
pub open spec fn valid_identifier(s: Seq<char>) -> bool {
    &&& s.len() > 0
    &&& !('0' <= s[0] && s[0] <= '9')
    &&& forall|i: int|
        0 <= i < s.len() ==> (('a' <= #[trigger] s[i] && s[i] <= 'z') || ('A' <= s[i] && s[i] <= 'Z')
            || ('0' <= s[i] && s[i] <= '9') || s[i] == '_')
}

/// Every language code, whatever it holds, becomes a valid Ren'Py identifier;
/// a code that already is one stays as it is.
pub proof fn law_identifiers_are_valid(code: Seq<char>)
    ensures
        valid_identifier(renpy_identifier(code)),
        valid_identifier(code) ==> renpy_identifier(code) == code,
{
    let body = code.map_values(|c: char| identifier_char(c));
    let r = renpy_identifier(code);
    assert forall|i: int| 0 <= i < r.len() implies (('a' <= #[trigger] r[i] && r[i] <= 'z') || ('A'
        <= r[i] && r[i] <= 'Z') || ('0' <= r[i] && r[i] <= '9') || r[i] == '_') by {
        if code.len() == 0 || ('0' <= code[0] && code[0] <= '9') {
            if i > 0 {
                assert(r[i] == body[i - 1]);
            }
        } else {
            assert(r[i] == body[i]);
        }
    }
    if valid_identifier(code) {
        assert(body =~= code);
    }
}

/// Converts a BCP 47 language code into a valid Ren'Py identifier.
pub fn language_identifier(code: &str) -> (r: String)
    ensures
        r@ == renpy_identifier(code@),
{
    let v = chars_of(code);
    let mut out = String::new();
    if v.len() == 0 || ('0' <= v[0] && v[0] <= '9') {
        crate::text::push_char(&mut out, '_');
    }
    let ghost start = out@;
    let mut i: usize = 0;
    while i < v.len()
        invariant
            i <= v.len(),
            out@ == start + v@.take(i as int).map_values(|c: char| identifier_char(c)),
        decreases v.len() - i,
    {
        let c = v[i];
        let d = if ('a' <= c && c <= 'z') || ('A' <= c && c <= 'Z') || ('0' <= c && c <= '9') || c
            == '_' {
            c
        } else {
            '_'
        };
        crate::text::push_char(&mut out, d);
        assert(v@.take(i + 1).map_values(|c: char| identifier_char(c)) =~= v@.take(
            i as int,
        ).map_values(|c: char| identifier_char(c)).push(d));
        i = i + 1;
    }
    assert(v@.take(v.len() as int) =~= v@);
    out
}

/// The file that segments of a distribution point to: its first archive
/// (`.rpa`) among the entries of the game directory, in listing order, or
/// the game directory itself.
pub open spec fn primary_source(data_dir: Seq<char>, names: Seq<String>, i: int) -> Seq<char>
    decreases names.len() - i,
{
    if i < 0 || i >= names.len() {
        data_dir
    } else if has_extension(names[i]@, "rpa"@) {
        join_path(data_dir, names[i]@)
    } else {
        primary_source(data_dir, names, i + 1)
    }
}

/// The file that the segments of a distribution point to.
pub fn primary_source_file(data_dir: &str, names: &Vec<String>) -> (r: String)
    ensures
        r@ == primary_source(data_dir@, names@, 0),
{
    proof {
        reveal_strlit("rpa");
    }
    let mut i: usize = 0;
    while i < names.len()
        invariant
            i <= names.len(),
            primary_source(data_dir@, names@, 0) == primary_source(data_dir@, names@, i as int),
        decreases names.len() - i,
    {
        if name_has_extension(names[i].as_str(), "rpa") {
            return join(data_dir, names[i].as_str());
        }
        i = i + 1;
    }
    owned(data_dir)
}

/// Whether `names[i]` is the launcher that generating templates runs: an
/// `.exe` entry of the game folder that no other `.exe` entry precedes in name
/// order.
pub open spec fn is_chosen_launcher(names: Seq<String>, i: int) -> bool {
    &&& 0 <= i < names.len()
    &&& has_extension(names[i]@, "exe"@)
    &&& forall|j: int|
        0 <= j < names.len() && has_extension(#[trigger] names[j]@, "exe"@) ==> crate::order::lex_le(
            text_key(names[i]@, false),
            text_key(names[j]@, false),
        )
}

/// Where the launcher is missing.
pub open spec fn missing_launcher(root: Seq<char>) -> Fault {
    Fault::MissingFile(join_path(root, "<game.exe>"@))
}

/// The launcher of a game folder, from the names of its entries: the first
/// `.exe` entry in name order, or the error that there is none.
pub fn choose_launcher(root: &str, names: &Vec<String>) -> (r: Result<String, EngineError>)
    ensures
        match r {
            Ok(path) => exists|i: int| is_chosen_launcher(names@, i) && path@ == join_path(root@, names@[i]@),
            Err(e) => e@ == missing_launcher(root@) && forall|j: int|
                0 <= j < names@.len() ==> !has_extension(#[trigger] names@[j]@, "exe"@),
        },
{
    proof {
        reveal_strlit("exe");
    }
    let mut best: Option<usize> = None;
    let mut i: usize = 0;
    while i < names.len()
        invariant
            i <= names.len(),
            match best {
                None => forall|j: int| 0 <= j < i ==> !has_extension(#[trigger] names@[j]@, "exe"@),
                Some(b) => b < i && has_extension(names@[b as int]@, "exe"@) && forall|j: int|
                    0 <= j < i && has_extension(#[trigger] names@[j]@, "exe"@) ==> crate::order::lex_le(
                        text_key(names@[b as int]@, false),
                        text_key(names@[j]@, false),
                    ),
            },
        decreases names.len() - i,
    {
        if name_has_extension(names[i].as_str(), "exe") {
            match best {
                None => {
                    proof {
                        crate::order::lemma_lex_refl(text_key(names@[i as int]@, false));
                    }
                    best = Some(i);
                },
                Some(b) => {
                    if text_before(names[i].as_str(), names[b].as_str(), false) {
                        proof {
                            let ki = text_key(names@[i as int]@, false);
                            let kb = text_key(names@[b as int]@, false);
                            crate::order::lemma_lex_total(ki, kb);
                            crate::order::lemma_lex_refl(ki);
                            assert forall|j: int|
                                0 <= j < i + 1 && has_extension(#[trigger] names@[j]@, "exe"@)
                                    implies crate::order::lex_le(ki, text_key(names@[j]@, false)) by {
                                if j < i {
                                    crate::order::lemma_lex_trans(ki, kb, text_key(names@[j]@, false));
                                }
                            }
                        }
                        best = Some(i);
                    } else {
                        proof {
                            crate::order::lemma_lex_total(
                                text_key(names@[b as int]@, false),
                                text_key(names@[i as int]@, false),
                            );
                        }
                    }
                },
            }
        }
        i = i + 1;
    }
    proof {
        reveal_strlit("<game.exe>");
    }
    match best {
        None => Err(EngineError::MissingRequiredFile(join(root, "<game.exe>"))),
        Some(b) => {
            assert(is_chosen_launcher(names@, b as int));
            Ok(join(root, names[b].as_str()))
        },
    }
}

/// A translation template file, by its path below the template directory,
/// with its text or the message of the error that reading it gave.
pub struct TemplateFile {
    pub relative_path: String,
    pub content: Result<String, String>,
}

impl SortKey for TemplateFile {
    open spec fn sort_key(&self) -> Seq<int> {
        text_key(self.relative_path@, true)
    }

    fn goes_before(&self, other: &Self) -> (r: bool) {
        text_before(self.relative_path.as_str(), other.relative_path.as_str(), true)
    }
}

/// The segments of the template files `files[i..]`, in order, or the first error.
pub open spec fn templates_from(
    template_root: Seq<char>,
    source_file: Seq<char>,
    files: Seq<TemplateFile>,
    i: int,
) -> Result<Seq<SegmentModel>, Fault>
    decreases files.len() - i,
{
    if i < 0 || i >= files.len() {
        Ok(Seq::empty())
    } else {
        let rel = files[i].relative_path@;
        match files[i].content {
            Err(m) => Err(Fault::Io(join_path(template_root, rel), m@)),
            Ok(t) => match templates_from(template_root, source_file, files, i + 1) {
                Err(f) => Err(f),
                Ok(rest) => Ok(template_segments(source_file, rel, t@) + rest),
            },
        }
    }
}

pub open spec fn engine_result(r: Result<Vec<Segment>, EngineError>) -> Result<
    Seq<SegmentModel>,
    Fault,
> {
    match r {
        Ok(v) => Ok(segment_models(v@)),
        Err(e) => Err(e@),
    }
}

fn templates_from_exec(
    template_root: &str,
    source_file: &str,
    files: &Vec<TemplateFile>,
    i: usize,
) -> (r: Result<Vec<Segment>, EngineError>)
    requires
        i <= files.len(),
    ensures
        engine_result(r) == templates_from(template_root@, source_file@, files@, i as int),
    decreases files.len() - i,
{
    if i >= files.len() {
        let v: Vec<Segment> = Vec::new();
        assert(segment_models(v@) =~= Seq::<SegmentModel>::empty());
        return Ok(v);
    }
    let rel = files[i].relative_path.as_str();
    let t = match &files[i].content {
        Err(m) => {
            return Err(EngineError::Io { path: join(template_root, rel), message: owned(m.as_str()) });
        },
        Ok(t) => t,
    };
    let rest = match templates_from_exec(template_root, source_file, files, i + 1) {
        Ok(r) => r,
        Err(e) => {
            return Err(e);
        },
    };
    let mut segs = parse_template(source_file, rel, t.as_str());
    let ghost a = segs@;
    let mut rest = rest;
    let ghost b = rest@;
    segs.append(&mut rest);
    assert(segs@ =~= a + b);
    assert(segment_models(segs@) =~= segment_models(a) + segment_models(b));
    Ok(segs)
}

/// The segments of the template files below `template_root`, file by file in
/// path order.
///
/// `listing` holds the `.rpy` files found below `template_root`, or the error
/// that listing a directory gave; `source_file` is what [`primary_source_file`]
/// picks.
pub fn extract_from(
    template_root: &str,
    source_file: &str,
    listing: Result<Vec<TemplateFile>, EngineError>,
) -> (r: Result<Vec<Segment>, EngineError>)
    ensures
        listing matches Err(e) ==> engine_result(r) == Err::<Seq<SegmentModel>, Fault>(e@),
        listing matches Ok(files) ==> exists|sorted: Seq<TemplateFile>|
            #![trigger stably_sorted(files@, sorted), templates_from(template_root@, source_file@, sorted, 0)]
            stably_sorted(files@, sorted)
                && engine_result(r) == templates_from(template_root@, source_file@, sorted, 0),
{
    let files = match listing {
        Err(e) => {
            return Err(e);
        },
        Ok(f) => f,
    };
    let sorted = sort_by_key(files);
    let r = templates_from_exec(template_root, source_file, &sorted, 0);
    assert(sorted_by_key(sorted@));
    r
}

/// Where checked-in templates of a distribution live.
pub open spec fn template_dir(project: DetectedProject) -> Seq<char> {
    join_path(project.data_dir@, "tl/_gametranslator_template"@)
}

/// Extracts segments from the checked-in or pre-generated templates below
/// `game/tl/_gametranslator_template`.
pub fn extract_templates(
    project: &DetectedProject,
    source_file: &str,
    listing: Result<Vec<TemplateFile>, EngineError>,
) -> (r: Result<Vec<Segment>, EngineError>)
    ensures
        listing matches Err(e) ==> engine_result(r) == Err::<Seq<SegmentModel>, Fault>(e@),
        listing matches Ok(files) ==> exists|sorted: Seq<TemplateFile>|
            #![trigger stably_sorted(files@, sorted), templates_from(template_dir(*project), source_file@, sorted, 0)]
            stably_sorted(files@, sorted)
                && engine_result(r) == templates_from(template_dir(*project), source_file@, sorted, 0),
{
    proof {
        reveal_strlit("tl/_gametranslator_template");
    }
    let root = join(project.data_dir.as_str(), "tl/_gametranslator_template");
    assert(root@ == template_dir(*project));
    extract_from(root.as_str(), source_file, listing)
}

/// Extracts segments from templates that the bundled runtime generated below
/// `template_root`.
pub fn extract_project(
    project: &DetectedProject,
    template_root: &str,
    source_file: &str,
    listing: Result<Vec<TemplateFile>, EngineError>,
) -> (r: Result<Vec<Segment>, EngineError>)
    ensures
        listing matches Err(e) ==> engine_result(r) == Err::<Seq<SegmentModel>, Fault>(e@),
        listing matches Ok(files) ==> exists|sorted: Seq<TemplateFile>|
            #![trigger stably_sorted(files@, sorted), templates_from(template_root@, source_file@, sorted, 0)]
            stably_sorted(files@, sorted)
                && engine_result(r) == templates_from(template_root@, source_file@, sorted, 0),
{
    extract_from(template_root, source_file, listing)
}


/// Position of the first occurrence of `pat` in `s` at or after `i`.
pub open spec fn find_seq(s: Seq<char>, pat: Seq<char>, i: int) -> Option<int>
    decreases s.len() + 1 - i,
{
    if i < 0 || i + pat.len() > s.len() {
        None
    } else if s.subrange(i, i + pat.len()) == pat {
        Some(i)
    } else {
        find_seq(s, pat, i + 1)
    }
}

/// `s` with its first occurrence of `pat` replaced by `rep` (`replacen(.., 1)`).
pub open spec fn replace_first(s: Seq<char>, pat: Seq<char>, rep: Seq<char>) -> Seq<char> {
    match find_seq(s, pat, 0) {
        Some(k) => s.take(k) + rep + s.skip(k + pat.len()),
        None => s,
    }
}

/// The first word of a header, or nothing.
pub open spec fn header_token(header: Seq<char>) -> Seq<char> {
    match first_word(header) {
        Some(w) => w,
        None => Seq::empty(),
    }
}

/// What escaping for a Ren'Py string writes for one character.
pub open spec fn escape_renpy_char(c: char) -> Seq<char> {
    if c == '\\' {
        "\\\\"@
    } else if c == '"' {
        "\\\""@
    } else if c == '\n' {
        "\\n"@
    } else {
        seq![c]
    }
}

/// A translation escaped for a Ren'Py string literal.
pub open spec fn escape_renpy(t: Seq<char>) -> Seq<char>
    decreases t.len(),
{
    if t.len() == 0 {
        Seq::empty()
    } else {
        escape_renpy(t.drop_last()) + escape_renpy_char(t.last())
    }
}

/// `line` with the text between its first and last double quote replaced by
/// the escaped translation.
pub open spec fn replace_quoted(line: Seq<char>, translation: Seq<char>) -> Seq<char> {
    match (find_char(line, '"', 0), last_index(line, '"')) {
        (Some(a), Some(b)) => line.take(a) + "\""@ + escape_renpy(translation) + "\""@ + line.skip(
            b + 1,
        ),
        _ => line,
    }
}

/// Whether a line holds a statement: not blank and not a comment.
pub open spec fn statement_line(line: Seq<char>) -> bool {
    trim(line).len() > 0 && !starts_with(trim(line), "#"@)
}

/// The first statement line after line `i`, from line `j` on.
pub open spec fn target_line(lines: Seq<Seq<char>>, j: int) -> Option<int>
    decreases lines.len() - j,
{
    if j < 0 || j >= lines.len() {
        None
    } else if statement_line(lines[j]) {
        Some(j)
    } else {
        target_line(lines, j + 1)
    }
}

/// Rewriting line `i` of a template, with the lines as they are then and the
/// current block.
pub open spec fn rewrite_step(
    lines: Seq<Seq<char>>,
    block0: Seq<char>,
    i: int,
    relative: Seq<char>,
    table: Seq<(Seq<char>, Seq<char>)>,
    language: Seq<char>,
) -> (Seq<Seq<char>>, Seq<char>) {
    let t = trim(lines[i]);
    let is_header = starts_with(t, "translate "@);
    let block = if is_header {
        block_of(t.skip(10))
    } else {
        block0
    };
    let lines1 = if is_header {
        lines.update(i, replace_first(lines[i], header_token(t.skip(10)), language))
    } else {
        lines
    };
    if starts_with(t, "# "@) || starts_with(t, "old "@) {
        match lookup(table, "renpy:"@ + template_location(relative, block, (i + 1) as nat)) {
            Some(tr) => match target_line(lines1, i + 1) {
                Some(j) => (lines1.update(j, replace_quoted(lines1[j], tr)), block),
                None => (lines1, block),
            },
            None => (lines1, block),
        }
    } else {
        (lines1, block)
    }
}

/// The lines and block after rewriting lines `0..n`.
pub open spec fn rewrite_upto(
    lines: Seq<Seq<char>>,
    n: int,
    relative: Seq<char>,
    table: Seq<(Seq<char>, Seq<char>)>,
    language: Seq<char>,
) -> (Seq<Seq<char>>, Seq<char>)
    decreases n,
{
    if n <= 0 {
        (lines, Seq::empty())
    } else {
        let (ls, block) = rewrite_upto(lines, n - 1, relative, table, language);
        rewrite_step(ls, block, n - 1, relative, table, language)
    }
}

/// Lines joined with line breaks.
pub open spec fn join_lines(lines: Seq<Seq<char>>) -> Seq<char>
    decreases lines.len(),
{
    if lines.len() == 0 {
        Seq::empty()
    } else if lines.len() == 1 {
        lines[0]
    } else {
        join_lines(lines.drop_last()) + "\n"@ + lines.last()
    }
}

/// A template file with its headers moved to `language` and its translated
/// lines put in place.
pub open spec fn rewritten_template(
    relative: Seq<char>,
    text: Seq<char>,
    table: Seq<(Seq<char>, Seq<char>)>,
    language: Seq<char>,
) -> Seq<char> {
    let lines = text_lines(text);
    join_lines(rewrite_upto(lines, lines.len() as int, relative, table, language).0) + "\n"@
}

pub proof fn lemma_rewrite_len(
    lines: Seq<Seq<char>>,
    n: int,
    relative: Seq<char>,
    table: Seq<(Seq<char>, Seq<char>)>,
    language: Seq<char>,
)
    requires
        n <= lines.len(),
    ensures
        rewrite_upto(lines, n, relative, table, language).0.len() == lines.len(),
    decreases n,
{
    if n > 0 {
        lemma_rewrite_len(lines, n - 1, relative, table, language);
        let (ls, block) = rewrite_upto(lines, n - 1, relative, table, language);
        let t = trim(ls[n - 1]);
        let lines1 = if starts_with(t, "translate "@) {
            ls.update(n - 1, replace_first(ls[n - 1], header_token(t.skip(10)), language))
        } else {
            ls
        };
        lemma_target_line(lines1, n);
    }
}

pub proof fn lemma_target_line(lines: Seq<Seq<char>>, j: int)
    requires
        0 <= j,
    ensures
        target_line(lines, j) matches Some(k) ==> j <= k < lines.len(),
    decreases lines.len() - j,
{
    if j < lines.len() && !statement_line(lines[j]) {
        lemma_target_line(lines, j + 1);
    }
}

pub(crate) fn find_seq_exec(s: &Vec<char>, pat: &Vec<char>) -> (r: Option<usize>)
    ensures
        match r {
            Some(k) => find_seq(s@, pat@, 0) == Some(k as int) && k + pat.len() <= s.len(),
            None => find_seq(s@, pat@, 0) is None,
        },
{
    if pat.len() > s.len() {
        return None;
    }
    if pat.len() == 0 {
        assert(s@.subrange(0, 0) =~= pat@);
        return Some(0);
    }
    let mut i: usize = 0;
    while i <= s.len() - pat.len()
        invariant
            0 < pat.len() <= s.len(),
            i <= s.len() - pat.len() + 1,
            find_seq(s@, pat@, 0) == find_seq(s@, pat@, i as int),
        decreases s.len() - pat.len() + 1 - i,
    {
        let head = slice_chars(s, i, i + pat.len());
        if chars_equal(&head, pat) {
            return Some(i);
        }
        i = i + 1;
    }
    None
}

fn replace_first_exec(s: &Vec<char>, pat: &Vec<char>, rep: &str) -> (r: Vec<char>)
    ensures
        r@ == replace_first(s@, pat@, rep@),
{
    match find_seq_exec(s, pat) {
        None => slice_chars(s, 0, s.len()),
        Some(k) => {
            let mut out = slice_chars(s, 0, k);
            let q = chars_of(rep);
            let tail = slice_chars(s, k + pat.len(), s.len());
            let mut q2 = slice_chars(&q, 0, q.len());
            let mut t2 = tail;
            let ghost a = out@;
            out.append(&mut q2);
            out.append(&mut t2);
            assert(out@ =~= s@.take(k as int) + rep@ + s@.skip(k + pat.len()));
            out
        },
    }
}

fn escape_renpy_exec(t: &str) -> (r: Vec<char>)
    ensures
        r@ == escape_renpy(t@),
{
    let v = chars_of(t);
    let mut out: Vec<char> = Vec::new();
    let mut i: usize = 0;
    assert(v@.take(0) =~= Seq::<char>::empty());
    proof {
        reveal_strlit("\\\\");
        reveal_strlit("\\\"");
        reveal_strlit("\\n");
    }
    while i < v.len()
        invariant
            i <= v.len(),
            v@ == t@,
            out@ == escape_renpy(v@.take(i as int)),
        decreases v.len() - i,
    {
        proof {
            reveal_strlit("\\\\");
            reveal_strlit("\\\"");
            reveal_strlit("\\n");
        }
        let c = v[i];
        let ghost before = out@;
        if c == '\\' {
            out.push('\\');
            out.push('\\');
        } else if c == '"' {
            out.push('\\');
            out.push('"');
        } else if c == '\n' {
            out.push('\\');
            out.push('n');
        } else {
            out.push(c);
        }
        assert(out@ =~= before + escape_renpy_char(c));
        assert(v@.take(i + 1).drop_last() =~= v@.take(i as int));
        i = i + 1;
    }
    assert(v@.take(v.len() as int) =~= v@);
    out
}

fn replace_quoted_exec(line: &Vec<char>, translation: &str) -> (r: Vec<char>)
    ensures
        r@ == replace_quoted(line@, translation@),
{
    proof {
        lemma_find_char(line@, '"', 0);
        lemma_last_index(line@, '"');
    }
    let a = match find_char_from(line, '"', 0) {
        Some(a) => a,
        None => {
            return slice_chars(line, 0, line.len());
        },
    };
    let b = match last_index_of(line, '"') {
        Some(b) => b,
        None => {
            return slice_chars(line, 0, line.len());
        },
    };
    let mut out = slice_chars(line, 0, a);
    out.push('"');
    let mut esc = escape_renpy_exec(translation);
    out.append(&mut esc);
    out.push('"');
    let mut tail = slice_chars(line, b + 1, line.len());
    out.append(&mut tail);
    proof {
        reveal_strlit("\"");
    }
    assert(out@ =~= line@.take(a as int) + "\""@ + escape_renpy(translation@) + "\""@
        + line@.skip(b + 1));
    out
}

fn is_statement_line(line: &Vec<char>) -> (r: bool)
    ensures
        r == statement_line(line@),
{
    let t = trim_chars(line);
    t.len() > 0 && !begins_with(&t, "#")
}

fn target_line_exec(lines: &Vec<Vec<char>>, from: usize) -> (r: Option<usize>)
    ensures
        match r {
            Some(j) => target_line(lines@.map_values(|l: Vec<char>| l@), from as int) == Some(
                j as int,
            ) && j < lines.len(),
            None => target_line(lines@.map_values(|l: Vec<char>| l@), from as int) is None,
        },
{
    let ghost ls = lines@.map_values(|l: Vec<char>| l@);
    let mut j = from;
    while j < lines.len()
        invariant
            from <= j,
            ls == lines@.map_values(|l: Vec<char>| l@),
            target_line(ls, from as int) == target_line(ls, j as int),
        decreases lines.len() - j,
    {
        if is_statement_line(&lines[j]) {
            return Some(j);
        }
        j = j + 1;
    }
    None
}

pub(crate) fn join_lines_exec(lines: &Vec<Vec<char>>) -> (r: String)
    ensures
        r@ == join_lines(lines@.map_values(|l: Vec<char>| l@)),
{
    let ghost ls = lines@.map_values(|l: Vec<char>| l@);
    let mut out = String::new();
    let mut i: usize = 0;
    assert(ls.take(0) =~= Seq::<Seq<char>>::empty());
    proof {
        reveal_strlit("\n");
    }
    while i < lines.len()
        invariant
            i <= lines.len(),
            ls == lines@.map_values(|l: Vec<char>| l@),
            out@ == join_lines(ls.take(i as int)),
        decreases lines.len() - i,
    {
        proof {
            reveal_strlit("\n");
        }
        assert(ls.take(i + 1).drop_last() =~= ls.take(i as int));
        assert(ls.take(i + 1).last() == lines@[i as int]@);
        if i > 0 {
            crate::text::push_char(&mut out, '\n');
        } else {
            assert(ls.take(1) =~= seq![lines@[0]@]);
        }
        push_chars(&mut out, &lines[i]);
        i = i + 1;
    }
    assert(ls.take(lines.len() as int) =~= ls);
    out
}

/// A template file with its headers moved to `language` and the translated
/// lines put in place of their source lines' targets.
pub fn rewrite_file(relative: &str, text: &str, translations: &TranslationTable, language: &str) -> (r:
    String)
    ensures
        r@ == rewritten_template(relative@, text@, translations.model(), language@),
{
    let mut lines = lines_of(text);
    let ghost l0 = lines@.map_values(|l: Vec<char>| l@);
    let n = lines.len();
    let mut block: Vec<char> = Vec::new();
    let mut i: usize = 0;
    while i < n
        invariant
            i <= n,
            n == l0.len(),
            lines.len() == n,
            (lines@.map_values(|l: Vec<char>| l@), block@) == rewrite_upto(
                l0,
                i as int,
                relative@,
                translations.model(),
                language@,
            ),
        decreases n - i,
    {
        proof {
            reveal_strlit("translate ");
            reveal_strlit("# ");
            reveal_strlit("old ");
            reveal_strlit("renpy:");
            reveal_strlit("#");
        }
        let ghost ls = lines@.map_values(|l: Vec<char>| l@);
        assert(ls[i as int] == lines@[i as int]@);
        let t = trim_chars(&lines[i]);
        let is_header = begins_with(&t, "translate ");
        if is_header {
            let header = slice_chars(&t, 10, t.len());
            assert(header@ =~= t@.skip(10));
            block = block_name(&header);
            let token = match first_word_exec(&header) {
                Some(w) => chars_of(w.as_str()),
                None => Vec::new(),
            };
            assert(token@ == header_token(header@));
            let updated = replace_first_exec(&lines[i], &token, language);
            lines.set(i, updated);
            assert(lines@.map_values(|l: Vec<char>| l@) =~= ls.update(
                i as int,
                replace_first(ls[i as int], header_token(t@.skip(10)), language@),
            ));
        }
        let ghost ls1 = lines@.map_values(|l: Vec<char>| l@);
        if begins_with(&t, "# ") || begins_with(&t, "old ") {
            let location = template_location_text(relative, &block, i + 1);
            let mut id = owned("renpy:");
            push_str(&mut id, location.as_str());
            match translations.get(id.as_str()) {
                Some(tr) => {
                    match target_line_exec(&lines, i + 1) {
                        Some(j) => {
                            assert(ls1[j as int] == lines@[j as int]@);
                            let replaced = replace_quoted_exec(&lines[j], tr.as_str());
                            lines.set(j, replaced);
                            assert(lines@.map_values(|l: Vec<char>| l@) =~= ls1.update(
                                j as int,
                                replace_quoted(ls1[j as int], tr@),
                            ));
                        },
                        None => {},
                    }
                },
                None => {},
            }
        }
        i = i + 1;
    }
    let mut out = join_lines_exec(&lines);
    crate::text::push_char(&mut out, '\n');
    proof {
        reveal_strlit("\n");
    }
    out
}

/// Where translations for `language` go below `output_root`.
pub open spec fn translation_dir(output_root: Seq<char>, language: Seq<char>) -> Seq<char> {
    join_path(join_path(output_root, "game/tl"@), renpy_identifier(language))
}

/// The script that makes a language the game's language.
pub open spec fn activation_script(identifier: Seq<char>) -> Seq<char> {
    "define config.language = \""@ + identifier + "\"\n"@
}

pub open spec fn activation_path(output_root: Seq<char>) -> Seq<char> {
    join_path(output_root, "game/game_translator_language.rpy"@)
}

/// The rewritten templates `files[i..]`, in order, or the first error.
pub open spec fn rewritten_from(
    template_root: Seq<char>,
    target: Seq<char>,
    table: Seq<(Seq<char>, Seq<char>)>,
    identifier: Seq<char>,
    files: Seq<TemplateFile>,
    i: int,
) -> Result<Seq<(Seq<char>, Seq<char>)>, Fault>
    decreases files.len() - i,
{
    if i < 0 || i >= files.len() {
        Ok(Seq::empty())
    } else {
        let rel = files[i].relative_path@;
        match files[i].content {
            Err(m) => Err(Fault::Io(join_path(template_root, rel), m@)),
            Ok(t) => match rewritten_from(template_root, target, table, identifier, files, i + 1) {
                Err(f) => Err(f),
                Ok(rest) => Ok(
                    seq![(join_path(target, rel), rewritten_template(rel, t@, table, identifier))]
                        + rest,
                ),
            },
        }
    }
}

pub open spec fn outputs_result(r: Result<Vec<OutputFile>, EngineError>) -> Result<
    Seq<(Seq<char>, Seq<char>)>,
    Fault,
> {
    match r {
        Ok(v) => Ok(output_models(v@)),
        Err(e) => Err(e@),
    }
}

fn rewritten_from_exec(
    template_root: &str,
    target: &str,
    translations: &TranslationTable,
    identifier: &str,
    files: &Vec<TemplateFile>,
    i: usize,
) -> (r: Result<Vec<OutputFile>, EngineError>)
    requires
        i <= files.len(),
    ensures
        outputs_result(r) == rewritten_from(
            template_root@,
            target@,
            translations.model(),
            identifier@,
            files@,
            i as int,
        ),
    decreases files.len() - i,
{
    if i >= files.len() {
        let v: Vec<OutputFile> = Vec::new();
        assert(output_models(v@) =~= Seq::<(Seq<char>, Seq<char>)>::empty());
        return Ok(v);
    }
    let rel = files[i].relative_path.as_str();
    let t = match &files[i].content {
        Err(m) => {
            return Err(EngineError::Io { path: join(template_root, rel), message: owned(m.as_str()) });
        },
        Ok(t) => t,
    };
    let rest = match rewritten_from_exec(template_root, target, translations, identifier, files, i + 1) {
        Ok(r) => r,
        Err(e) => {
            return Err(e);
        },
    };
    let file = OutputFile {
        path: join(target, rel),
        content: rewrite_file(rel, t.as_str(), translations, identifier),
    };
    let ghost w = (file.path@, file.content@);
    let mut out: Vec<OutputFile> = Vec::new();
    out.push(file);
    let ghost a = out@;
    let mut rest = rest;
    let ghost b = rest@;
    out.append(&mut rest);
    assert(out@ =~= a + b);
    assert(output_models(a) =~= seq![w]);
    assert(output_models(out@) =~= output_models(a) + output_models(b));
    Ok(out)
}

/// What writing the translations of a distribution gives: the rewritten
/// templates, then the script that selects the language.
pub open spec fn renpy_written(
    table: Seq<(Seq<char>, Seq<char>)>,
    output_root: Seq<char>,
    language: Seq<char>,
    template_root: Seq<char>,
    templates: Result<Vec<TemplateFile>, EngineError>,
) -> Result<Seq<(Seq<char>, Seq<char>)>, Fault> {
    match templates {
        Err(e) => Err(e@),
        Ok(files) => match rewritten_from(
            template_root,
            translation_dir(output_root, language),
            table,
            renpy_identifier(language),
            files@,
            0,
        ) {
            Err(f) => Err(f),
            Ok(w) => Ok(
                w.push((activation_path(output_root), activation_script(renpy_identifier(language)))),
            ),
        },
    }
}

/// Writes standard Ren'Py translation files into an independent patch
/// directory: each template below `game/tl/<language>` of `output_root`, with
/// its headers moved to the language and its translated lines in place, and a
/// script that selects the language.
///
/// `templates` holds the template files that the bundled runtime generated
/// below `template_root`, in the order that walking it gave, or the error
/// that generating or listing them gave.
pub fn write_translations(
    translations: &TranslationTable,
    output_root: &str,
    language: &str,
    template_root: &str,
    templates: Result<Vec<TemplateFile>, EngineError>,
) -> (r: Result<Vec<OutputFile>, EngineError>)
    ensures
        outputs_result(r) == renpy_written(
            translations.model(),
            output_root@,
            language@,
            template_root@,
            templates,
        ),
{
    proof {
        reveal_strlit("game/tl");
        reveal_strlit("game/game_translator_language.rpy");
        reveal_strlit("define config.language = \"");
        reveal_strlit("\"\n");
    }
    let files = match templates {
        Err(e) => {
            return Err(e);
        },
        Ok(f) => f,
    };
    let identifier = language_identifier(language);
    let tl = join(output_root, "game/tl");
    let target = join(tl.as_str(), identifier.as_str());
    let mut out = match rewritten_from_exec(
        template_root,
        target.as_str(),
        translations,
        identifier.as_str(),
        &files,
        0,
    ) {
        Ok(o) => o,
        Err(e) => {
            return Err(e);
        },
    };
    let mut script = owned("define config.language = \"");
    push_str(&mut script, identifier.as_str());
    push_str(&mut script, "\"\n");
    let ghost before = out@;
    let file = OutputFile {
        path: join(output_root, "game/game_translator_language.rpy"),
        content: script,
    };
    let ghost w = (file.path@, file.content@);
    out.push(file);
    assert(output_models(out@) =~= output_models(before).push(w));
    Ok(out)
}

proof fn lemma_rewritten_all(
    template_root: Seq<char>,
    target: Seq<char>,
    table: Seq<(Seq<char>, Seq<char>)>,
    identifier: Seq<char>,
    files: Seq<TemplateFile>,
    i: int,
)
    requires
        0 <= i <= files.len(),
        forall|k: int| i <= k < files.len() ==> (#[trigger] files[k]).content is Ok,
    ensures
        rewritten_from(template_root, target, table, identifier, files, i) matches Ok(w) && w.len()
            == files.len() - i && forall|j: int|
            0 <= j < w.len() ==> #[trigger] w[j] == (
                join_path(target, files[i + j].relative_path@),
                rewritten_template(
                    files[i + j].relative_path@,
                    files[i + j].content->Ok_0@,
                    table,
                    identifier,
                ),
            ),
    decreases files.len() - i,
{
    if i < files.len() {
        lemma_rewritten_all(template_root, target, table, identifier, files, i + 1);
        let rest = rewritten_from(template_root, target, table, identifier, files, i + 1)->Ok_0;
        let w = rewritten_from(template_root, target, table, identifier, files, i)->Ok_0;
        assert forall|j: int| 0 <= j < w.len() implies #[trigger] w[j] == (
            join_path(target, files[i + j].relative_path@),
            rewritten_template(
                files[i + j].relative_path@,
                files[i + j].content->Ok_0@,
                table,
                identifier,
            ),
        ) by {
            if j > 0 {
                assert(w[j] == rest[j - 1]);
                assert(i + 1 + (j - 1) == i + j);
            }
        }
    }
}

proof fn lemma_rewritten_stops(
    template_root: Seq<char>,
    target: Seq<char>,
    table: Seq<(Seq<char>, Seq<char>)>,
    identifier: Seq<char>,
    files: Seq<TemplateFile>,
    i: int,
    k: int,
)
    requires
        0 <= i <= k < files.len(),
        forall|j: int| i <= j < k ==> (#[trigger] files[j]).content is Ok,
        files[k].content is Err,
    ensures
        rewritten_from(template_root, target, table, identifier, files, i) == Err::<
            Seq<(Seq<char>, Seq<char>)>,
            Fault,
        >(Fault::Io(join_path(template_root, files[k].relative_path@), files[k].content->Err_0@)),
    decreases k - i,
{
    if i < k {
        lemma_rewritten_stops(template_root, target, table, identifier, files, i + 1, k);
    }
}

/// When every template reads, the writer gives exactly one file per template,
/// in the templates' order, at the template's path below
/// `game/tl/<identifier>` of the output folder and holding the rewritten
/// template, followed by the script that selects the language.
pub proof fn law_every_template_written(
    table: Seq<(Seq<char>, Seq<char>)>,
    output_root: Seq<char>,
    language: Seq<char>,
    template_root: Seq<char>,
    templates: Vec<TemplateFile>,
)
    requires
        forall|k: int| 0 <= k < templates@.len() ==> (#[trigger] templates@[k]).content is Ok,
    ensures
        renpy_written(table, output_root, language, template_root, Ok(templates)) matches Ok(w) && {
            let files = templates@;
            let id = renpy_identifier(language);
            &&& w.len() == files.len() + 1
            &&& forall|k: int|
                0 <= k < files.len() ==> #[trigger] w[k] == (
                    join_path(join_path(join_path(output_root, "game/tl"@), id), files[k].relative_path@),
                    rewritten_template(files[k].relative_path@, files[k].content->Ok_0@, table, id),
                )
            &&& w[files.len() as int] == (
                join_path(output_root, "game/game_translator_language.rpy"@),
                "define config.language = \""@ + id + "\"\n"@,
            )
        },
{
    let files = templates@;
    let id = renpy_identifier(language);
    let target = translation_dir(output_root, language);
    lemma_rewritten_all(template_root, target, table, id, files, 0);
    let w = rewritten_from(template_root, target, table, id, files, 0)->Ok_0;
    assert forall|k: int| 0 <= k < files.len() implies #[trigger] w.push(
        (activation_path(output_root), activation_script(id)),
    )[k] == (
        join_path(join_path(join_path(output_root, "game/tl"@), id), files[k].relative_path@),
        rewritten_template(files[k].relative_path@, files[k].content->Ok_0@, table, id),
    ) by {
        assert(w[k] == w.push((activation_path(output_root), activation_script(id)))[k]);
        assert(0 + k == k);
    }
}

/// When a template cannot be read, the writer writes nothing and reports the
/// first such template, at its path below the template folder.
pub proof fn law_unreadable_template_stops(
    table: Seq<(Seq<char>, Seq<char>)>,
    output_root: Seq<char>,
    language: Seq<char>,
    template_root: Seq<char>,
    templates: Vec<TemplateFile>,
    k: int,
)
    requires
        0 <= k < templates@.len(),
        forall|j: int| 0 <= j < k ==> (#[trigger] templates@[j]).content is Ok,
        templates@[k].content is Err,
    ensures
        renpy_written(table, output_root, language, template_root, Ok(templates)) == Err::<
            Seq<(Seq<char>, Seq<char>)>,
            Fault,
        >(
            Fault::Io(
                join_path(template_root, templates@[k].relative_path@),
                templates@[k].content->Err_0@,
            ),
        ),
{
    lemma_rewritten_stops(
        template_root,
        translation_dir(output_root, language),
        table,
        renpy_identifier(language),
        templates@,
        0,
        k,
    );
}

} // verus!
