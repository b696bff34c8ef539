use crate::renpy::{
    find_seq, join_lines, join_lines_exec, lines_of, replace_all, replace_all_exec, starts_with,
    text_lines,
};
use crate::text::{
    chars_of, find_char, find_char_from, slice_chars, string_from, trim, trim_chars,
};
use vstd::prelude::*;

verus! {

/// The texts of a sequence of strings.
pub open spec fn string_texts(v: Seq<String>) -> Seq<Seq<char>> {
    v.map_values(|s: String| s@)
}

/// `s` split at every non-overlapping `sep`, left to right (`str::split`).
pub open spec fn split_on(s: Seq<char>, sep: Seq<char>) -> Seq<Seq<char>>
    decreases s.len(),
{
    match find_seq(s, sep, 0) {
        Some(k) => if sep.len() == 0 {
            seq![s]
        } else {
            seq![s.take(k)] + split_on(
                s.skip(
                    {
                        proof {
                            lemma_find_seq(s, sep, 0);
                        }
                        k + sep.len()
                    },
                ),
                sep,
            )
        },
        None => seq![s],
    }
}

/// The entries of `s` that are not empty, in order.
pub open spec fn keep_nonempty(s: Seq<Seq<char>>) -> Seq<Seq<char>>
    decreases s.len(),
{
    if s.len() == 0 {
        Seq::empty()
    } else if s.last().len() > 0 {
        keep_nonempty(s.drop_last()).push(s.last())
    } else {
        keep_nonempty(s.drop_last())
    }
}

/// Line endings made uniform: `\r\n` and a lone `\r` both become `\n`.
pub open spec fn unify_newlines(text: Seq<char>) -> Seq<char> {
    replace_all(replace_all(text, "\r\n"@, "\n"@), "\r"@, "\n"@)
}

/// A block of text with every line trimmed.
pub open spec fn block_text(piece: Seq<char>) -> Seq<char> {
    join_lines(text_lines(piece).map_values(|l: Seq<char>| trim(l)))
}

/// The paragraphs of a plain text: the parts between blank lines, each line
/// trimmed, the empty ones left out.
pub open spec fn plain_blocks(text: Seq<char>) -> Seq<Seq<char>> {
    keep_nonempty(
        split_on(unify_newlines(text), "\n\n"@).map_values(|p: Seq<char>| block_text(p)),
    )
}

pub proof fn lemma_find_seq(s: Seq<char>, pat: Seq<char>, i: int)
    requires
        0 <= i,
    ensures
        match find_seq(s, pat, i) {
            Some(k) => i <= k && k + pat.len() <= s.len() && s.subrange(k, k + pat.len()) == pat
                && forall|j: int| i <= j < k ==> #[trigger] s.subrange(j, j + pat.len()) != pat,
            None => forall|j: int| i <= j && j + pat.len() <= s.len() ==> #[trigger] s.subrange(j, j + pat.len()) != pat,
        },
    decreases s.len() + 1 - i,
{
    if i + pat.len() <= s.len() && s.subrange(i, i + pat.len()) != pat {
        lemma_find_seq(s, pat, i + 1);
    }
}

pub proof fn lemma_find_seq_skip(s: Seq<char>, pat: Seq<char>, a: int, i: int)
    requires
        0 <= a <= s.len(),
        0 <= i,
    ensures
        find_seq(s.skip(a), pat, i) == match find_seq(s, pat, a + i) {
            Some(k) => Some(k - a),
            None => None,
        },
    decreases s.len() + 1 - a - i,
{
    if a + i + pat.len() <= s.len() {
        assert(s.skip(a).subrange(i, i + pat.len()) =~= s.subrange(a + i, a + i + pat.len()));
        if s.subrange(a + i, a + i + pat.len()) != pat {
            lemma_find_seq_skip(s, pat, a, i + 1);
        }
    }
}

/// Whether `pat` occurs in `s` at position `i`.
fn matches_at(s: &Vec<char>, pat: &Vec<char>, i: usize) -> (r: bool)
    requires
        i + pat.len() <= s.len(),
    ensures
        r == (s@.subrange(i as int, i + pat.len()) == pat@),
{
    let mut j: usize = 0;
    while j < pat.len()
        invariant
            j <= pat.len(),
            i + pat.len() <= s.len(),
            forall|m: int| 0 <= m < j ==> s@[i + m] == pat@[m],
        decreases pat.len() - j,
    {
        if s[i + j] != pat[j] {
            assert(s@.subrange(i as int, i + pat.len())[j as int] != pat@[j as int]);
            return false;
        }
        j = j + 1;
    }
    assert(s@.subrange(i as int, i + pat.len()) =~= pat@);
    true
}

/// The first occurrence of `pat` in `s` at or after `i`.
fn find_seq_from(s: &Vec<char>, pat: &Vec<char>, i: usize) -> (r: Option<usize>)
    ensures
        match r {
            Some(k) => find_seq(s@, pat@, i as int) == Some(k as int),
            None => find_seq(s@, pat@, i as int) is None,
        },
{
    if pat.len() > s.len() || i > s.len() - pat.len() {
        return None;
    }
    if pat.len() == 0 {
        assert(s@.subrange(i as int, i as int) =~= pat@);
        return Some(i);
    }
    let mut j = i;
    while j <= s.len() - pat.len()
        invariant
            0 < pat.len() <= s.len(),
            i <= j <= s.len() - pat.len() + 1,
            find_seq(s@, pat@, i as int) == find_seq(s@, pat@, j as int),
        decreases s.len() - pat.len() + 1 - j,
    {
        if matches_at(s, pat, j) {
            return Some(j);
        }
        j = j + 1;
    }
    None
}

/// One block: its lines trimmed and joined again.
fn block_text_exec(piece: &Vec<char>) -> (r: String)
    ensures
        r@ == block_text(piece@),
{
    let text = string_from(piece.as_slice());
    let lines = lines_of(text.as_str());
    let ghost ls = lines@.map_values(|l: Vec<char>| l@);
    let mut trimmed: Vec<Vec<char>> = Vec::new();
    let mut i: usize = 0;
    while i < lines.len()
        invariant
            i <= lines.len(),
            ls == lines@.map_values(|l: Vec<char>| l@),
            trimmed@.map_values(|l: Vec<char>| l@) == ls.take(i as int).map_values(
                |l: Seq<char>| trim(l),
            ),
        decreases lines.len() - i,
    {
        let t = trim_chars(lines[i].as_slice());
        let ghost before = trimmed@;
        trimmed.push(t);
        proof {
            assert(ls[i as int] == lines@[i as int]@);
            assert(ls.take(i + 1) =~= ls.take(i as int).push(ls[i as int]));
            assert(trimmed@.map_values(|l: Vec<char>| l@) =~= before.map_values(|l: Vec<char>| l@).push(t@));
            assert(ls.take(i + 1).map_values(|l: Seq<char>| trim(l)) =~= ls.take(i as int).map_values(
                |l: Seq<char>| trim(l),
            ).push(trim(ls[i as int])));
        }
        i = i + 1;
    }
    assert(ls.take(lines.len() as int) =~= ls);
    join_lines_exec(&trimmed)
}

/// The paragraphs of a plain text (`text.replace("\r\n", "\n").replace('\r', "\n")
/// .split("\n\n")`, each line trimmed, empty blocks dropped).
pub fn split_blocks(text: &str) -> (r: Vec<String>)
    ensures
        string_texts(r@) == plain_blocks(text@),
{
    let v = chars_of(text);
    let a = replace_all_exec(&v, "\r\n", "\n");
    let s = replace_all_exec(&a, "\r", "\n");
    let sep = chars_of("\n\n");
    proof {
        reveal_strlit("\n\n");
    }
    assert(sep@.len() == 2);
    let mut out: Vec<String> = Vec::new();
    let mut start: usize = 0;
    let ghost mut done: Seq<Seq<char>> = Seq::empty();
    assert(s@.skip(0) =~= s@);
    loop
        invariant
            s@ == unify_newlines(text@),
            sep@ == "\n\n"@,
            sep@.len() == 2,
            start <= s.len(),
            split_on(s@, sep@) == done + split_on(s@.skip(start as int), sep@),
            string_texts(out@) == keep_nonempty(done.map_values(|p: Seq<char>| block_text(p))),
        decreases s.len() - start,
    {
        let ghost rest = s@.skip(start as int);
        proof {
            lemma_find_seq_skip(s@, sep@, start as int, 0);
            lemma_find_seq(s@, sep@, start as int);
        }
        let found = find_seq_from(&s, &sep, start);
        let end = match found {
            Some(k) => k,
            None => s.len(),
        };
        let piece = slice_chars(s.as_slice(), start, end);
        let block = block_text_exec(&piece);
        let ghost before = out@;
        if !block.as_str().is_empty() {
            out.push(block);
            assert(string_texts(out@) =~= string_texts(before).push(block@));
        }
        proof {
            let mapped = done.push(piece@).map_values(|p: Seq<char>| block_text(p));
            assert(mapped =~= done.map_values(|p: Seq<char>| block_text(p)).push(block_text(piece@)));
            assert(mapped.drop_last() =~= done.map_values(|p: Seq<char>| block_text(p)));
        }
        match found {
            Some(k) => {
                proof {
                    assert(piece@ =~= rest.take(k - start));
                    assert(rest.skip(k - start + 2) =~= s@.skip(k + 2));
                    assert(split_on(rest, sep@) =~= seq![piece@] + split_on(s@.skip(k + 2), sep@));
                    done = done.push(piece@);
                    assert(split_on(s@, sep@) =~= done + split_on(s@.skip(k + 2), sep@));
                }
                start = k + 2;
            },
            None => {
                proof {
                    assert(piece@ =~= rest);
                    assert(split_on(rest, sep@) == seq![rest]);
                    done = done.push(piece@);
                    assert(split_on(s@, sep@) =~= done);
                }
                return out;
            },
        }
    }
}

/// `s` without trailing `c` characters (`str::trim_end_matches`).
pub open spec fn strip_trailing(s: Seq<char>, c: char) -> Seq<char>
    decreases s.len(),
{
    if s.len() > 0 && s.last() == c {
        strip_trailing(s.drop_last(), c)
    } else {
        s
    }
}

/// Number of leading `#` characters.
pub open spec fn leading_hashes(s: Seq<char>) -> nat
    decreases s.len(),
{
    if s.len() > 0 && s[0] == '#' {
        1 + leading_hashes(s.drop_first())
    } else {
        0
    }
}

/// The title of a Markdown heading block: its first line opened by one to six
/// `#`, without the markers, closing `#` and surrounding white space.
pub open spec fn markdown_title(block: Seq<char>) -> Option<Seq<char>> {
    let lines = text_lines(block);
    if lines.len() == 0 {
        None
    } else {
        let line = trim(lines[0]);
        let n = leading_hashes(line);
        if 1 <= n <= 6 {
            let title = trim(strip_trailing(trim(line.skip(n as int)), '#'));
            if title.len() > 0 {
                Some(title)
            } else {
                None
            }
        } else {
            None
        }
    }
}

proof fn lemma_leading_hashes(s: Seq<char>)
    ensures
        leading_hashes(s) <= s.len(),
        forall|i: int| 0 <= i < leading_hashes(s) ==> s[i] == '#',
        leading_hashes(s) < s.len() ==> s[leading_hashes(s) as int] != '#',
    decreases s.len(),
{
    if s.len() > 0 && s[0] == '#' {
        lemma_leading_hashes(s.drop_first());
        assert forall|i: int| 0 <= i < leading_hashes(s) implies s[i] == '#' by {
            if i > 0 {
                assert(s[i] == s.drop_first()[i - 1]);
            }
        }
    }
}

proof fn lemma_leading_hashes_is(s: Seq<char>, k: int)
    requires
        0 <= k <= s.len(),
        forall|i: int| 0 <= i < k ==> s[i] == '#',
        k < s.len() ==> s[k] != '#',
    ensures
        leading_hashes(s) == k,
    decreases k,
{
    if k > 0 {
        assert forall|i: int| 0 <= i < k - 1 implies s.drop_first()[i] == '#' by {
            assert(s.drop_first()[i] == s[i + 1]);
        }
        if k - 1 < s.len() - 1 {
            assert(s.drop_first()[k - 1] == s[k]);
        }
        lemma_leading_hashes_is(s.drop_first(), k - 1);
    }
}

fn strip_trailing_exec(v: &Vec<char>, c: char) -> (r: Vec<char>)
    ensures
        r@ == strip_trailing(v@, c),
{
    let mut end = v.len();
    assert(v@.take(v.len() as int) =~= v@);
    while end > 0 && v[end - 1] == c
        invariant
            end <= v.len(),
            strip_trailing(v@, c) == strip_trailing(v@.take(end as int), c),
        decreases end,
    {
        assert(v@.take(end as int).drop_last() =~= v@.take(end - 1));
        end = end - 1;
    }
    slice_chars(v.as_slice(), 0, end)
}

/// The title of a Markdown heading block, if it is one.
pub fn markdown_heading(block: &str) -> (r: Option<String>)
    ensures
        match r {
            Some(t) => markdown_title(block@) == Some(t@),
            None => markdown_title(block@) is None,
        },
{
    let lines = lines_of(block);
    if lines.len() == 0 {
        return None;
    }
    assert(lines@[0]@ == text_lines(block@)[0]);
    let line = trim_chars(lines[0].as_slice());
    let mut n: usize = 0;
    while n < line.len() && line[n] == '#'
        invariant
            n <= line.len(),
            forall|i: int| 0 <= i < n ==> line@[i] == '#',
        decreases line.len() - n,
    {
        n = n + 1;
    }
    proof {
        lemma_leading_hashes_is(line@, n as int);
    }
    if n < 1 || n > 6 {
        return None;
    }
    let rest = slice_chars(line.as_slice(), n, line.len());
    assert(rest@ =~= line@.skip(n as int));
    let inner = trim_chars(rest.as_slice());
    let stripped = strip_trailing_exec(&inner, '#');
    let title = trim_chars(stripped.as_slice());
    if title.len() == 0 {
        None
    } else {
        Some(string_from(title.as_slice()))
    }
}

/// ASCII upper-case letters made lower-case (`char::to_ascii_lowercase`).
pub open spec fn ascii_lower(c: char) -> char {
    if 'A' <= c <= 'Z' {
        ((c as u32) + 32) as char
    } else {
        c
    }
}

fn ascii_lower_exec(c: char) -> (r: char)
    ensures
        r == ascii_lower(c),
{
    if 'A' <= c && c <= 'Z' {
        ((c as u8) + 32) as char
    } else {
        c
    }
}

/// A string with its ASCII letters lower-cased (`str::to_ascii_lowercase`).
pub open spec fn lower_ascii(s: Seq<char>) -> Seq<char> {
    s.map_values(|c: char| ascii_lower(c))
}

/// Whether `c` occurs in `s`.
pub open spec fn has_char(s: Seq<char>, c: char) -> bool {
    find_char(s, c, 0) is Some
}

/// The title of a plain-text chapter heading: a one-line block of at most 80
/// characters that opens with `第` and names a chapter, section, volume, part or
/// piece, or opens with `chapter `, `part ` or `book ` in any ASCII case.
pub open spec fn txt_title(block: Seq<char>) -> Option<Seq<char>> {
    if has_char(block, '\n') || block.len() > 80 {
        None
    } else {
        let lower = lower_ascii(block);
        let chinese = block.len() > 0 && block[0] == '第' && (has_char(block, '章') || has_char(
            block,
            '节',
        ) || has_char(block, '卷') || has_char(block, '部') || has_char(block, '篇'));
        let latin = starts_with(lower, "chapter "@) || starts_with(lower, "part "@) || starts_with(
            lower,
            "book "@,
        );
        if chinese || latin {
            Some(trim(block))
        } else {
            None
        }
    }
}

pub(crate) fn lower_ascii_exec(v: &Vec<char>) -> (r: Vec<char>)
    ensures
        r@ == lower_ascii(v@),
{
    let mut r: Vec<char> = Vec::new();
    let mut i: usize = 0;
    while i < v.len()
        invariant
            i <= v.len(),
            r@ == v@.take(i as int).map_values(|c: char| ascii_lower(c)),
        decreases v.len() - i,
    {
        r.push(ascii_lower_exec(v[i]));
        i = i + 1;
        assert(r@ =~= v@.take(i as int).map_values(|c: char| ascii_lower(c)));
    }
    assert(v@.take(v.len() as int) =~= v@);
    r
}

fn has_char_exec(v: &Vec<char>, c: char) -> (r: bool)
    ensures
        r == has_char(v@, c),
{
    find_char_from(v, c, 0).is_some()
}

/// The title of a plain-text chapter heading block, if it is one.
pub fn txt_heading(block: &str) -> (r: Option<String>)
    ensures
        match r {
            Some(t) => txt_title(block@) == Some(t@),
            None => txt_title(block@) is None,
        },
{
    let v = chars_of(block);
    if has_char_exec(&v, '\n') || v.len() > 80 {
        return None;
    }
    let lower = lower_ascii_exec(&v);
    let chinese = v.len() > 0 && v[0] == '第' && (has_char_exec(&v, '章') || has_char_exec(&v, '节')
        || has_char_exec(&v, '卷') || has_char_exec(&v, '部') || has_char_exec(&v, '篇'));
    let latin = crate::renpy::begins_with(&lower, "chapter ") || crate::renpy::begins_with(
        &lower,
        "part ",
    ) || crate::renpy::begins_with(&lower, "book ");
    if chinese || latin {
        let t = trim_chars(v.as_slice());
        Some(string_from(t.as_slice()))
    } else {
        None
    }
}

} // verus!
