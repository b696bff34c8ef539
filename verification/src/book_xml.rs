use crate::book::{
    body_title, build_project, built_project, draft_models, group_blocks, grouped, item_models,
    is_separator, BookError, BookFault, BookFormat, BookProject, book_result,
};
use crate::book_text::{lower_ascii, string_texts};
use crate::renpy::starts_with;
use crate::text::{chars_of, decimal, owned, push_decimal, push_str, slice_chars, string_from, trim, trim_chars};
use crate::xml::{
    attribute_model, read_xml_events, tokens_of, utf8_text, xml_tokens, XmlEvent, XmlToken,
};
use std::io::Read;
use vstd::prelude::*;
use vstd::utf8::{decode_utf8, valid_utf8};

verus! {

// ---------------------------------------------------------------------------
// Names and attributes
// ---------------------------------------------------------------------------
/// What `String::from_utf8_lossy` makes of bytes.
pub uninterp spec fn utf8_lossy(bytes: Seq<u8>) -> Seq<char>;

/// Decodes bytes, replacing invalid sequences (`String::from_utf8_lossy`).
/// Claimed: the text is `utf8_lossy(bytes)`.
#[verifier::external_body]
fn lossy_text(bytes: &[u8]) -> (r: String)
    ensures
        r@ == utf8_lossy(bytes@),
{
    String::from_utf8_lossy(bytes).into_owned()
}

/// The part of `s` after its last `:`.
pub open spec fn after_colon(s: Seq<char>) -> Seq<char>
    decreases s.len(),
{
    if s.len() == 0 {
        s
    } else if s.last() == ':' {
        Seq::empty()
    } else {
        after_colon(s.drop_last()).push(s.last())
    }
}

/// The local part of a qualified XML name; empty when it is not UTF-8.
pub open spec fn local_name(name: Seq<u8>) -> Seq<char> {
    if valid_utf8(name) {
        after_colon(decode_utf8(name))
    } else {
        Seq::empty()
    }
}

/// The local part of a qualified XML name.
pub fn local_name_of(name: &[u8]) -> (r: Vec<char>)
    ensures
        r@ == local_name(name@),
{
    match utf8_text(name) {
        Err(_) => Vec::new(),
        Ok(s) => {
            let v = chars_of(s.as_str());
            let mut start = v.len();
            assert(v@.take(v.len() as int) =~= v@);
            while start > 0 && v[start - 1] != ':'
                invariant
                    start <= v.len(),
                    after_colon(v@) == after_colon(v@.take(start as int)) + v@.skip(start as int),
                decreases start,
            {
                let ghost t = v@.take(start as int);
                assert(t.drop_last() =~= v@.take(start - 1));
                assert(t.last() == v@[start - 1]);
                assert(after_colon(t) == after_colon(t.drop_last()).push(t.last()));
                assert(v@.skip(start - 1) =~= seq![v@[start - 1]] + v@.skip(start as int));
                start = start - 1;
            }
            proof {
                let t = v@.take(start as int);
                if start > 0 {
                    assert(t.last() == v@[start - 1]);
                    assert(after_colon(t) == Seq::<char>::empty());
                } else {
                    assert(t =~= Seq::<char>::empty());
                }
                assert(after_colon(v@) =~= v@.skip(start as int));
            }
            slice_chars(v.as_slice(), start, v.len())
        },
    }
}

pub(crate) fn text_is(v: &Vec<char>, s: &str) -> (r: bool)
    ensures
        r == (v@ == s@),
{
    let w = chars_of(s);
    crate::text::chars_equal(v.as_slice(), w.as_slice())
}

/// The value of the first well-formed attribute whose local name is `key`.
pub open spec fn first_attribute(attributes: Seq<Option<(Seq<u8>, Seq<u8>)>>, key: Seq<char>) -> Option<Seq<char>>
    decreases attributes.len(),
{
    if attributes.len() == 0 {
        None
    } else {
        match attributes[0] {
            Some((k, v)) => if local_name(k) == key {
                Some(utf8_lossy(v))
            } else {
                first_attribute(attributes.drop_first(), key)
            },
            None => first_attribute(attributes.drop_first(), key),
        }
    }
}

/// The value of the last well-formed attribute whose local name is `key`.
pub open spec fn last_attribute(attributes: Seq<Option<(Seq<u8>, Seq<u8>)>>, key: Seq<char>) -> Option<Seq<char>>
    decreases attributes.len(),
{
    if attributes.len() == 0 {
        None
    } else {
        match attributes.last() {
            Some((k, v)) => if local_name(k) == key {
                Some(utf8_lossy(v))
            } else {
                last_attribute(attributes.drop_last(), key)
            },
            None => last_attribute(attributes.drop_last(), key),
        }
    }
}

pub(crate) fn first_attribute_exec(attributes: &Vec<Option<(Vec<u8>, Vec<u8>)>>, key: &str) -> (r: Option<String>)
    ensures
        match r {
            Some(v) => first_attribute(crate::xml::attributes_model(attributes@), key@) == Some(v@),
            None => first_attribute(crate::xml::attributes_model(attributes@), key@) is None,
        },
{
    let ghost all = crate::xml::attributes_model(attributes@);
    let mut i: usize = 0;
    assert(all.skip(0) =~= all);
    while i < attributes.len()
        invariant
            i <= attributes.len(),
            all == crate::xml::attributes_model(attributes@),
            first_attribute(all, key@) == first_attribute(all.skip(i as int), key@),
        decreases attributes.len() - i,
    {
        assert(all.skip(i as int)[0] == attribute_model(attributes@[i as int]));
        assert(all.skip(i as int).drop_first() =~= all.skip(i + 1));
        match &attributes[i] {
            Some((k, v)) => {
                let n = local_name_of(k.as_slice());
                if text_is(&n, key) {
                    return Some(lossy_text(v.as_slice()));
                }
            },
            None => {},
        }
        i = i + 1;
    }
    None
}

pub(crate) fn last_attribute_exec(attributes: &Vec<Option<(Vec<u8>, Vec<u8>)>>, key: &str) -> (r: Option<String>)
    ensures
        match r {
            Some(v) => last_attribute(crate::xml::attributes_model(attributes@), key@) == Some(v@),
            None => last_attribute(crate::xml::attributes_model(attributes@), key@) is None,
        },
{
    let ghost all = crate::xml::attributes_model(attributes@);
    let mut end = attributes.len();
    assert(all.take(all.len() as int) =~= all);
    while end > 0
        invariant
            end <= attributes.len(),
            all == crate::xml::attributes_model(attributes@),
            last_attribute(all, key@) == last_attribute(all.take(end as int), key@),
        decreases end,
    {
        assert(all.take(end as int).last() == attribute_model(attributes@[end - 1]));
        assert(all.take(end as int).drop_last() =~= all.take(end - 1));
        match &attributes[end - 1] {
            Some((k, v)) => {
                let n = local_name_of(k.as_slice());
                if text_is(&n, key) {
                    return Some(lossy_text(v.as_slice()));
                }
            },
            None => {},
        }
        end = end - 1;
    }
    None
}

// ---------------------------------------------------------------------------
// Paragraph blocks
// ---------------------------------------------------------------------------
/// Which markup a document body uses.
#[derive(Clone, Copy, Debug, PartialEq, Eq, Structural)]
pub enum XmlMode {
    Html,
    Docx,
}

/// Whether a local name is an HTML heading element.
pub open spec fn is_heading_name(n: Seq<char>) -> bool {
    n == "h1"@ || n == "h2"@ || n == "h3"@ || n == "h4"@ || n == "h5"@ || n == "h6"@
}

/// Whether an element opens (or closes) a block in the given mode.
pub open spec fn is_block_name(mode: XmlMode, n: Seq<char>) -> bool {
    match mode {
        XmlMode::Html => n == "p"@ || is_heading_name(n),
        XmlMode::Docx => n == "p"@,
    }
}

/// Whether an attribute is a `val` whose value begins with `heading`, in any
/// ASCII case.
pub open spec fn is_heading_style(a: Option<(Seq<u8>, Seq<u8>)>) -> bool {
    match a {
        Some((k, v)) => local_name(k) == "val"@ && starts_with(lower_ascii(utf8_lossy(v)), "heading"@),
        None => false,
    }
}

/// Whether some well-formed `val` attribute names a heading style.
pub open spec fn names_heading_style(attributes: Seq<Option<(Seq<u8>, Seq<u8>)>>) -> bool {
    exists|i: int| 0 <= i < attributes.len() && #[trigger] is_heading_style(attributes[i])
}

/// The state of a block scan: the open block, if any, as (text, heading), and
/// the finished blocks as (heading, text).
pub struct BlockScan {
    pub current: Option<(Seq<char>, bool)>,
    pub blocks: Seq<(bool, Seq<char>)>,
}

/// The open block marked as a heading.
pub open spec fn mark_heading(s: BlockScan) -> BlockScan {
    match s.current {
        Some((t, _)) => BlockScan { current: Some((t, true)), blocks: s.blocks },
        None => s,
    }
}

/// One event of a block scan; an error gives the message of the invalid-data error.
pub open spec fn scan_step(mode: XmlMode, s: BlockScan, t: XmlToken) -> Result<BlockScan, Seq<char>> {
    match t {
        XmlToken::Start { name, attributes } => {
            let n = local_name(name);
            if is_block_name(mode, n) {
                Ok(
                    BlockScan {
                        current: Some((Seq::empty(), mode == XmlMode::Html && is_heading_name(n))),
                        blocks: s.blocks,
                    },
                )
            } else if mode == XmlMode::Docx && n == "pStyle"@ && names_heading_style(attributes) {
                Ok(mark_heading(s))
            } else {
                Ok(s)
            }
        },
        XmlToken::Empty { name, attributes } => {
            if mode == XmlMode::Docx && local_name(name) == "pStyle"@ && names_heading_style(
                attributes,
            ) {
                Ok(mark_heading(s))
            } else {
                Ok(s)
            }
        },
        XmlToken::Text { content } => match s.current {
            Some((text, heading)) => match content {
                Ok(c) => Ok(BlockScan { current: Some((text + c, heading)), blocks: s.blocks }),
                Err(m) => Err("XML 文本无效："@ + m),
            },
            None => Ok(s),
        },
        XmlToken::End { name } => {
            if is_block_name(mode, local_name(name)) {
                match s.current {
                    Some((text, heading)) => {
                        let t = trim(text);
                        Ok(
                            BlockScan {
                                current: None,
                                blocks: if t.len() > 0 {
                                    s.blocks.push((heading, t))
                                } else {
                                    s.blocks
                                },
                            },
                        )
                    },
                    None => Ok(s),
                }
            } else {
                Ok(s)
            }
        },
        XmlToken::Error { message } => Err("书籍 XML 无效："@ + message),
        _ => Ok(s),
    }
}

/// A block scan over a sequence of events.
pub open spec fn scan_blocks(mode: XmlMode, tokens: Seq<XmlToken>) -> Result<BlockScan, Seq<char>>
    decreases tokens.len(),
{
    if tokens.len() == 0 {
        Ok(BlockScan { current: None, blocks: Seq::empty() })
    } else {
        match scan_blocks(mode, tokens.drop_last()) {
            Ok(s) => scan_step(mode, s, tokens.last()),
            Err(m) => Err(m),
        }
    }
}

/// The paragraphs of an XML document, as (heading, text), or the message of the
/// invalid-data error that stops the reading.
pub open spec fn document_blocks(mode: XmlMode, xml: Seq<char>) -> Result<Seq<(bool, Seq<char>)>, Seq<char>> {
    match scan_blocks(mode, xml_tokens(xml, true)) {
        Ok(s) => Ok(s.blocks),
        Err(m) => Err(m),
    }
}

proof fn lemma_scan_stops(mode: XmlMode, tokens: Seq<XmlToken>, k: int)
    requires
        0 <= k <= tokens.len(),
        scan_blocks(mode, tokens.take(k)) is Err,
    ensures
        scan_blocks(mode, tokens) == scan_blocks(mode, tokens.take(k)),
    decreases tokens.len() - k,
{
    if k < tokens.len() {
        assert(tokens.take(k + 1).drop_last() =~= tokens.take(k));
        lemma_scan_stops(mode, tokens, k + 1);
    } else {
        assert(tokens.take(k) =~= tokens);
    }
}

fn heading_style(attributes: &Vec<Option<(Vec<u8>, Vec<u8>)>>) -> (r: bool)
    ensures
        r == names_heading_style(crate::xml::attributes_model(attributes@)),
{
    let ghost all = crate::xml::attributes_model(attributes@);
    let mut i: usize = 0;
    while i < attributes.len()
        invariant
            i <= attributes.len(),
            all == crate::xml::attributes_model(attributes@),
            forall|j: int| 0 <= j < i ==> !#[trigger] is_heading_style(all[j]),
        decreases attributes.len() - i,
    {
        assert(all[i as int] == attribute_model(attributes@[i as int]));
        match &attributes[i] {
            Some((k, v)) => {
                let n = local_name_of(k.as_slice());
                if text_is(&n, "val") {
                    let value = lossy_text(v.as_slice());
                    let chars = chars_of(value.as_str());
                    let mut lower: Vec<char> = Vec::new();
                    let mut j: usize = 0;
                    while j < chars.len()
                        invariant
                            j <= chars.len(),
                            lower@ == lower_ascii(chars@.take(j as int)),
                        decreases chars.len() - j,
                    {
                        let c = chars[j];
                        let l = if 'A' <= c && c <= 'Z' {
                            ((c as u8) + 32) as char
                        } else {
                            c
                        };
                        lower.push(l);
                        j = j + 1;
                        assert(lower@ =~= lower_ascii(chars@.take(j as int)));
                    }
                    assert(chars@.take(chars.len() as int) =~= chars@);
                    if crate::renpy::begins_with(&lower, "heading") {
                        assert(is_heading_style(all[i as int]));
                        return true;
                    }
                }
            },
            None => {},
        }
        i = i + 1;
    }
    false
}

fn name_is_block(mode: XmlMode, n: &Vec<char>) -> (r: bool)
    ensures
        r == is_block_name(mode, n@),
{
    let heading = text_is(n, "h1") || text_is(n, "h2") || text_is(n, "h3") || text_is(n, "h4")
        || text_is(n, "h5") || text_is(n, "h6");
    match mode {
        XmlMode::Html => text_is(n, "p") || heading,
        XmlMode::Docx => text_is(n, "p"),
    }
}

fn name_is_heading(n: &Vec<char>) -> (r: bool)
    ensures
        r == is_heading_name(n@),
{
    text_is(n, "h1") || text_is(n, "h2") || text_is(n, "h3") || text_is(n, "h4") || text_is(
        n,
        "h5",
    ) || text_is(n, "h6")
}

/// The paragraphs of an XML document body, as (heading, text).
pub fn xml_blocks(xml: &str, mode: XmlMode) -> (r: Result<Vec<(bool, String)>, BookError>)
    ensures
        match r {
            Ok(blocks) => document_blocks(mode, xml@) == Ok::<Seq<(bool, Seq<char>)>, Seq<char>>(
                item_models(blocks@),
            ),
            Err(e) => document_blocks(mode, xml@) matches Err(m) && e@ == BookFault::InvalidData(m),
        },
{
    let events = read_xml_events(xml, true);
    let ghost tokens = tokens_of(events@);
    let mut blocks: Vec<(bool, String)> = Vec::new();
    let mut current: Option<(Vec<char>, bool)> = None;
    let mut i: usize = 0;
    assert(tokens.take(0) =~= Seq::<XmlToken>::empty());
    assert(item_models(blocks@) =~= Seq::<(bool, Seq<char>)>::empty());
    while i < events.len()
        invariant
            i <= events.len(),
            tokens == tokens_of(events@),
            tokens == xml_tokens(xml@, true),
            scan_blocks(mode, tokens.take(i as int)) == Ok::<BlockScan, Seq<char>>(
                BlockScan {
                    current: match current {
                        Some((t, h)) => Some((t@, h)),
                        None => None,
                    },
                    blocks: item_models(blocks@),
                },
            ),
        decreases events.len() - i,
    {
        proof {
            assert(tokens.take(i + 1).drop_last() =~= tokens.take(i as int));
            assert(tokens.take(i + 1).last() == events@[i as int]@);
        }
        let ghost before_blocks = blocks@;
        match &events[i] {
            XmlEvent::Start(name, attributes) => {
                let n = local_name_of(name.as_slice());
                if name_is_block(mode, &n) {
                    let heading = match mode {
                        XmlMode::Html => name_is_heading(&n),
                        XmlMode::Docx => false,
                    };
                    let fresh: Vec<char> = Vec::new();
                    assert(fresh@ =~= Seq::<char>::empty());
                    current = Some((fresh, heading));
                } else if mode == XmlMode::Docx && text_is(&n, "pStyle") && heading_style(attributes) {
                    current = match current {
                        Some((t, _)) => Some((t, true)),
                        None => None,
                    };
                }
            },
            XmlEvent::Empty(name, attributes) => {
                if mode == XmlMode::Docx {
                    let n = local_name_of(name.as_slice());
                    if text_is(&n, "pStyle") && heading_style(attributes) {
                        current = match current {
                            Some((t, _)) => Some((t, true)),
                            None => None,
                        };
                    }
                }
            },
            XmlEvent::Text(content) => {
                match current {
                    Some((t, h)) => match content {
                        Ok(c) => {
                            let mut t2 = t;
                            let extra = chars_of(c.as_str());
                            let ghost t_old = t2@;
                            let mut e2 = slice_chars(extra.as_slice(), 0, extra.len());
                            t2.append(&mut e2);
                            assert(t2@ =~= t_old + c@);
                            current = Some((t2, h));
                        },
                        Err(m) => {
                            let mut s = String::new();
                            push_str(&mut s, "XML 文本无效：");
                            push_str(&mut s, m.as_str());
                            proof {
                                lemma_scan_stops(mode, tokens, i + 1);
                            }
                            return Err(BookError::InvalidData(s));
                        },
                    },
                    None => {
                        current = None;
                    },
                }
            },
            XmlEvent::End(name) => {
                let n = local_name_of(name.as_slice());
                if name_is_block(mode, &n) {
                    match current {
                        Some((t, h)) => {
                            let trimmed = trim_chars(t.as_slice());
                            if trimmed.len() > 0 {
                                let text = string_from(trimmed.as_slice());
                                blocks.push((h, text));
                                assert(item_models(blocks@) =~= item_models(before_blocks).push(
                                    (h, text@),
                                ));
                            }
                            current = None;
                        },
                        None => {
                            current = None;
                        },
                    }
                }
            },
            XmlEvent::Error(message) => {
                let mut s = String::new();
                push_str(&mut s, "书籍 XML 无效：");
                push_str(&mut s, message.as_str());
                proof {
                    lemma_scan_stops(mode, tokens, i + 1);
                }
                return Err(BookError::InvalidData(s));
            },
            XmlEvent::Eof => {},
            XmlEvent::CData => {},
            XmlEvent::Other => {},
        }
        i = i + 1;
    }
    assert(tokens.take(events.len() as int) =~= tokens);
    Ok(blocks)
}

} // verus!
