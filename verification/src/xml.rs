use quick_xml::events::Event::{CData, Empty, End, Eof, Start, Text};
use quick_xml::events::attributes::Attributes;
use quick_xml::reader::Reader;
use vstd::prelude::*;
use vstd::utf8::{decode_utf8, encode_utf8, valid_utf8};

verus! {

/// One event of a streaming XML reader, with the parts that the parsers read.
pub enum XmlEvent {
    /// `<name ...>`: the raw name and the attributes, each as raw `(key, value)`
    /// bytes, or `None` for one that fails to parse.
    Start(Vec<u8>, Vec<Option<(Vec<u8>, Vec<u8>)>>),
    /// `<name .../>`: the raw name and the attributes, as for `Start`.
    Empty(Vec<u8>, Vec<Option<(Vec<u8>, Vec<u8>)>>),
    /// `</name>`, with the raw name.
    End(Vec<u8>),
    /// Character data, decoded, or the decoding error's message.
    Text(Result<String, String>),
    /// A `<![CDATA[...]]>` section.
    CData,
    /// Comments, declarations, processing instructions, doctypes, entity references.
    Other,
    /// End of the document.
    Eof,
    /// A syntax error, with its message.
    Error(String),
}

/// Mathematical model of [`XmlEvent`].
pub enum XmlToken {
    Start { name: Seq<u8>, attributes: Seq<Option<(Seq<u8>, Seq<u8>)>> },
    Empty { name: Seq<u8>, attributes: Seq<Option<(Seq<u8>, Seq<u8>)>> },
    End { name: Seq<u8> },
    Text { content: Result<Seq<char>, Seq<char>> },
    CData,
    Other,
    Eof,
    Error { message: Seq<char> },
}

pub open spec fn attribute_model(a: Option<(Vec<u8>, Vec<u8>)>) -> Option<(Seq<u8>, Seq<u8>)> {
    match a {
        Some((k, v)) => Some((k@, v@)),
        None => None,
    }
}

pub open spec fn attributes_model(attributes: Seq<Option<(Vec<u8>, Vec<u8>)>>) -> Seq<
    Option<(Seq<u8>, Seq<u8>)>,
> {
    attributes.map_values(|a: Option<(Vec<u8>, Vec<u8>)>| attribute_model(a))
}

impl View for XmlEvent {
    type V = XmlToken;

    open spec fn view(&self) -> XmlToken {
        match self {
            XmlEvent::Start(name, attributes) => XmlToken::Start {
                name: name@,
                attributes: attributes_model(attributes@),
            },
            XmlEvent::Empty(name, attributes) => XmlToken::Empty {
                name: name@,
                attributes: attributes_model(attributes@),
            },
            XmlEvent::End(name) => XmlToken::End { name: name@ },
            XmlEvent::Text(content) => XmlToken::Text {
                content: match content {
                    Ok(t) => Ok(t@),
                    Err(m) => Err(m@),
                },
            },
            XmlEvent::CData => XmlToken::CData,
            XmlEvent::Other => XmlToken::Other,
            XmlEvent::Eof => XmlToken::Eof,
            XmlEvent::Error(message) => XmlToken::Error { message: message@ },
        }
    }
}

/// The models of a sequence of events.
pub open spec fn tokens_of(events: Seq<XmlEvent>) -> Seq<XmlToken> {
    events.map_values(|e: XmlEvent| e@)
}

/// One event as the reader hands it over, before the attributes of a tag are
/// listed: a tag carries its raw name and the text between `<` and `>` (or `/>`).
pub enum ReadEvent {
    Start(Vec<u8>, String),
    Empty(Vec<u8>, String),
    End(Vec<u8>),
    Text(Result<String, String>),
    CData,
    Other,
    Eof,
    Error(String),
}

/// Mathematical model of [`ReadEvent`].
pub enum ReadToken {
    Start { name: Seq<u8>, tag: Seq<char> },
    Empty { name: Seq<u8>, tag: Seq<char> },
    End { name: Seq<u8> },
    Text { content: Result<Seq<char>, Seq<char>> },
    CData,
    Other,
    Eof,
    Error { message: Seq<char> },
}

impl View for ReadEvent {
    type V = ReadToken;

    open spec fn view(&self) -> ReadToken {
        match self {
            ReadEvent::Start(name, tag) => ReadToken::Start { name: name@, tag: tag@ },
            ReadEvent::Empty(name, tag) => ReadToken::Empty { name: name@, tag: tag@ },
            ReadEvent::End(name) => ReadToken::End { name: name@ },
            ReadEvent::Text(content) => ReadToken::Text {
                content: match content {
                    Ok(t) => Ok(t@),
                    Err(m) => Err(m@),
                },
            },
            ReadEvent::CData => ReadToken::CData,
            ReadEvent::Other => ReadToken::Other,
            ReadEvent::Eof => ReadToken::Eof,
            ReadEvent::Error(message) => ReadToken::Error { message: message@ },
        }
    }
}

/// The attributes that `quick_xml::events::attributes::Attributes::new(tag, name_len)`
/// yields, each as raw `(key, value)` bytes, or `None` for one that fails to parse.
pub uninterp spec fn tag_attribute_list(tag: Seq<char>, name_len: nat) -> Seq<
    Option<(Seq<u8>, Seq<u8>)>,
>;

/// The event that a read event stands for, with the attributes of a tag listed.
pub open spec fn cooked(t: ReadToken) -> XmlToken {
    match t {
        ReadToken::Start { name, tag } => XmlToken::Start {
            name,
            attributes: tag_attribute_list(tag, name.len()),
        },
        ReadToken::Empty { name, tag } => XmlToken::Empty {
            name,
            attributes: tag_attribute_list(tag, name.len()),
        },
        ReadToken::End { name } => XmlToken::End { name },
        ReadToken::Text { content } => XmlToken::Text { content },
        ReadToken::CData => XmlToken::CData,
        ReadToken::Other => XmlToken::Other,
        ReadToken::Eof => XmlToken::Eof,
        ReadToken::Error { message } => XmlToken::Error { message },
    }
}

/// Whether a read token ends the reading of a document.
pub open spec fn is_final_read(t: ReadToken) -> bool {
    t is Eof || t is Error
}

/// A read sequence as a reader produces it: not empty, ending with its first
/// `Eof` or `Error`.
pub open spec fn read_well_ended(tokens: Seq<ReadToken>) -> bool {
    &&& tokens.len() > 0
    &&& is_final_read(tokens.last())
    &&& forall|i: int| 0 <= i < tokens.len() - 1 ==> !is_final_read(#[trigger] tokens[i])
}

#[verifier::external_type_specification]
#[verifier::external_body]
#[verifier::reject_recursive_types(R)]
pub struct ExXmlReader<R>(Reader<R>);

/// The events that `quick_xml::Reader::from_str` yields for `text`, read with the
/// given `trim_text` setting, up to and including the first `Eof` or error.
pub uninterp spec fn read_tokens(text: Seq<char>, trim_text: bool) -> Seq<ReadToken>;

/// The events of `text`, with the attributes of each tag listed.
pub open spec fn xml_tokens(text: Seq<char>, trim_text: bool) -> Seq<XmlToken> {
    read_tokens(text, trim_text).map_values(|t: ReadToken| cooked(t))
}

/// The events a reader has still to yield.
pub uninterp spec fn pending_tokens(reader: Reader<&[u8]>) -> Seq<ReadToken>;

/// Opens a `quick_xml` reader over `text` (`Reader::from_str`, then
/// `config_mut().trim_text(trim_text)`). Claimed: the reader will yield
/// `read_tokens(text, trim_text)`, a sequence that ends with its first `Eof` or error.
#[verifier::external_body]
pub(crate) fn open_xml_reader<'a>(text: &'a str, trim_text: bool) -> (reader: Reader<&'a [u8]>)
    ensures
        pending_tokens(reader) == read_tokens(text@, trim_text),
        read_well_ended(pending_tokens(reader)),
{
    let mut reader = Reader::from_str(text);
    reader.config_mut().trim_text(trim_text);
    reader
}

/// Reads the next event (`Reader::read_event`): a tag as its name and its text
/// (`String::from_utf8_lossy`), text decoded with `BytesText::decode`.
/// Claimed: it is the first pending event, and the reader moves past it; a
/// tag's name is the start of its bytes (`BytesStart::name`), and the lossy
/// conversion never shortens them, so the name is no longer than the text.
#[verifier::external_body]
pub(crate) fn next_read_event(reader: &mut Reader<&[u8]>) -> (event: ReadEvent)
    requires
        pending_tokens(*old(reader)).len() > 0,
    ensures
        event@ == pending_tokens(*old(reader))[0],
        pending_tokens(*final(reader)) == pending_tokens(*old(reader)).drop_first(),
        event matches ReadEvent::Start(name, tag) ==> name@.len() <= encode_utf8(tag@).len(),
        event matches ReadEvent::Empty(name, tag) ==> name@.len() <= encode_utf8(tag@).len(),
{
    match reader.read_event() {
        Ok(Start(e)) => ReadEvent::Start(e.name().0.to_vec(), String::from_utf8_lossy(&e).into_owned()),
        Ok(Empty(e)) => ReadEvent::Empty(e.name().0.to_vec(), String::from_utf8_lossy(&e).into_owned()),
        Ok(End(e)) => ReadEvent::End(e.to_vec()),
        Ok(Text(t)) => ReadEvent::Text(t.decode().map(String::from).map_err(|e| e.to_string())),
        Ok(CData(_)) => ReadEvent::CData,
        Ok(Eof) => ReadEvent::Eof,
        Ok(_) => ReadEvent::Other,
        Err(e) => ReadEvent::Error(e.to_string()),
    }
}

/// Lists the attributes of a tag (`Attributes::new(tag, name_len)`), each as raw
/// `(key, value)` bytes, or `None` for one that fails to parse. Claimed: the
/// list is `tag_attribute_list(tag, name_len)`. The iterator slices the tag's
/// bytes from `name_len` on, so `name_len` may not pass their end.
#[verifier::external_body]
fn tag_attributes(tag: &str, name_len: usize) -> (r: Vec<Option<(Vec<u8>, Vec<u8>)>>)
    requires
        name_len <= encode_utf8(tag@).len(),
    ensures
        attributes_model(r@) == tag_attribute_list(tag@, name_len as nat),
{
    Attributes::new(tag, name_len).map(|a| a.ok().map(|a| (a.key.0.to_vec(), a.value.to_vec()))).collect()
}

/// Reads the next event, with the attributes of a tag listed.
pub fn next_xml_event(reader: &mut Reader<&[u8]>) -> (event: XmlEvent)
    requires
        pending_tokens(*old(reader)).len() > 0,
    ensures
        event@ == cooked(pending_tokens(*old(reader))[0]),
        pending_tokens(*final(reader)) == pending_tokens(*old(reader)).drop_first(),
{
    match next_read_event(reader) {
        ReadEvent::Start(name, tag) => {
            let attributes = tag_attributes(tag.as_str(), name.len());
            XmlEvent::Start(name, attributes)
        },
        ReadEvent::Empty(name, tag) => {
            let attributes = tag_attributes(tag.as_str(), name.len());
            XmlEvent::Empty(name, attributes)
        },
        ReadEvent::End(name) => XmlEvent::End(name),
        ReadEvent::Text(content) => XmlEvent::Text(content),
        ReadEvent::CData => XmlEvent::CData,
        ReadEvent::Other => XmlEvent::Other,
        ReadEvent::Eof => XmlEvent::Eof,
        ReadEvent::Error(message) => XmlEvent::Error(message),
    }
}

/// The message of the error that `std::str::from_utf8` reports for `bytes`.
pub uninterp spec fn utf8_error_message(bytes: Seq<u8>) -> Seq<char>;

/// Decodes UTF-8 bytes (`std::str::from_utf8`). Claimed: it succeeds exactly on
/// valid UTF-8, with the decoded characters; otherwise it reports the error's message.
#[verifier::external_body]
pub(crate) fn utf8_text(bytes: &[u8]) -> (r: Result<String, String>)
    ensures
        r is Ok <==> valid_utf8(bytes@),
        r matches Ok(s) ==> s@ == decode_utf8(bytes@),
        r matches Err(m) ==> m@ == utf8_error_message(bytes@),
{
    std::str::from_utf8(bytes).map(String::from).map_err(|e| e.to_string())
}

/// Reads every event of `text` in order.
pub fn read_xml_events(text: &str, trim_text: bool) -> (events: Vec<XmlEvent>)
    ensures
        tokens_of(events@) == xml_tokens(text@, trim_text),
{
    let mut reader = open_xml_reader(text, trim_text);
    let ghost all = read_tokens(text@, trim_text);
    let mut events: Vec<XmlEvent> = Vec::new();
    proof {
        assert(all.skip(0) =~= all);
        assert(tokens_of(events@) =~= all.take(0).map_values(|t: ReadToken| cooked(t)));
    }
    loop
        invariant
            read_well_ended(all),
            all == read_tokens(text@, trim_text),
            events.len() < all.len(),
            tokens_of(events@) == all.take(events.len() as int).map_values(|t: ReadToken| cooked(t)),
            pending_tokens(reader) == all.skip(events.len() as int),
        decreases all.len() - events.len(),
    {
        let ghost k = events.len() as int;
        let event = next_xml_event(&mut reader);
        let last = match event {
            XmlEvent::Eof => true,
            XmlEvent::Error(_) => true,
            _ => false,
        };
        events.push(event);
        proof {
            assert(all.take(k + 1) =~= all.take(k).push(all[k]));
            assert(tokens_of(events@) =~= tokens_of(events@.drop_last()).push(cooked(all[k])));
            assert(all.take(k + 1).map_values(|t: ReadToken| cooked(t)) =~= all.take(k).map_values(
                |t: ReadToken| cooked(t),
            ).push(cooked(all[k])));
            assert(all.skip(k).drop_first() =~= all.skip(k + 1));
        }
        if last {
            proof {
                assert(is_final_read(all[k]));
                assert(k == all.len() - 1);
                assert(all.take(k + 1) =~= all);
            }
            return events;
        }
        proof {
            assert(!is_final_read(all[k]));
            assert(k < all.len() - 1);
        }
    }
}

} // verus!
