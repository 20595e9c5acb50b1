//! Reading XML with `quick_xml`: the reader's events as plain tokens, and the
//! decoding and unescaping of their text.
use vstd::prelude::*;

use vstd::utf8::{decode_utf8, valid_utf8};

verus! {

#[verifier::external_type_specification]
#[verifier::external_body]
#[verifier::reject_recursive_types(R)]
pub struct ExXmlReader<R>(quick_xml::Reader<R>);

/// One event of the XML reader, reduced to what the manifest parser reads.
#[derive(Debug)]
pub enum XmlToken {
    /// A start tag, with the bytes of its local name.
    Start(Vec<u8>),
    /// An end tag, with the bytes of its local name.
    End(Vec<u8>),
    /// Text content, raw (still escaped).
    Text(Vec<u8>),
    /// The end of the document.
    Eof,
    /// Any other event (declaration, comment, CDATA, empty element, reference, ...).
    Other,
    /// A reader error, with its message.
    Error(String),
}

/// A reader over a string, with (as ghost state) the text it reads and the number
/// of events it has delivered.
pub struct XmlTokenizer<'a> {
    reader: quick_xml::Reader<&'a [u8]>,
    text: Ghost<Seq<char>>,
    read: Ghost<nat>,
}

impl<'a> XmlTokenizer<'a> {
    /// The text the reader reads.
    pub closed spec fn text(&self) -> Seq<char> {
        self.text@
    }

    /// How many events the reader has delivered.
    pub closed spec fn read(&self) -> nat {
        self.read@
    }
}

// The events that `quick_xml`'s reader over the string `content`, with text
// trimmed, delivers one by one from the start, up to and including the first end
// of document or error.
pub uninterp spec fn xml_events(content: Seq<char>) -> Seq<XmlToken>;

/// A token sequence as the reader delivers it: it ends at the first end of document
/// or error.
pub open spec fn reader_sequence(toks: Seq<XmlToken>) -> bool {
    &&& toks.len() > 0
    &&& (toks.last() is Eof || toks.last() is Error)
    &&& forall|i: int| 0 <= i < toks.len() - 1 ==> !(#[trigger] toks[i] is Eof) && !(toks[i] is Error)
}

/// Starts reading `content` as XML, trimming whitespace around text.
///
/// Calls `quick_xml::Reader::from_str` and sets the reader's `trim_text(true)`.
/// Claimed: the reader reads `content` and has delivered nothing yet, and the events
/// it delivers end at the first `Eof` or error. They do end: every other event
/// consumes at least one byte of the input (markup from `<` to `>`, non-empty text,
/// a reference `&...;`), and at the end of the input the reader returns `Eof`.
#[verifier::external_body]
pub(crate) fn xml_tokenizer<'a>(content: &'a str) -> (t: XmlTokenizer<'a>)
    ensures
        t.text() == content@,
        t.read() == 0,
        reader_sequence(xml_events(t.text())),
{
    let mut reader = quick_xml::Reader::from_str(content);
    reader.config_mut().trim_text(true);
    XmlTokenizer { reader, text: Ghost(content@), read: Ghost(0) }
}

/// Reads the next event of the reader.
///
/// Calls `quick_xml::Reader::read_event` and converts the event. Claimed: it is the
/// next of the reader's events for its text, which the ghost count then includes.
#[verifier::external_body]
pub(crate) fn next_token(t: &mut XmlTokenizer) -> (tok: XmlToken)
    requires
        old(t).read() < xml_events(old(t).text()).len(),
    ensures
        final(t).text() == old(t).text(),
        final(t).read() == old(t).read() + 1,
        tok == xml_events(old(t).text())[old(t).read() as int],
{
    match t.reader.read_event() {
        Ok(quick_xml::events::Event::Start(e)) => XmlToken::Start(e.local_name().as_ref().to_vec()),
        Ok(quick_xml::events::Event::End(e)) => XmlToken::End(e.local_name().as_ref().to_vec()),
        Ok(quick_xml::events::Event::Text(e)) => XmlToken::Text(e.into_inner().into_owned()),
        Ok(quick_xml::events::Event::Eof) => XmlToken::Eof,
        Ok(_) => XmlToken::Other,
        Err(e) => XmlToken::Error(e.to_string()),
    }
}

// The message of `std::str::from_utf8`'s error for invalid bytes.
pub uninterp spec fn utf8_error_text(bytes: Seq<u8>) -> Seq<char>;

/// Decodes UTF-8 bytes.
///
/// Calls `std::str::from_utf8`: it succeeds exactly on valid UTF-8 and then yields
/// the decoded characters; its error's message is named, not stated.
#[verifier::external_body]
pub(crate) fn decode_utf8_bytes(bytes: &[u8]) -> (r: Result<String, String>)
    ensures
        r is Ok <==> valid_utf8(bytes@),
        r matches Ok(s) ==> s@ == decode_utf8(bytes@),
        r matches Err(m) ==> m@ == utf8_error_text(bytes@),
{
    match std::str::from_utf8(bytes) {
        Ok(s) => Ok(s.to_string()),
        Err(e) => Err(e.to_string()),
    }
}

/// A text result, as text.
pub open spec fn result_views(r: Result<String, String>) -> Result<Seq<char>, Seq<char>> {
    match r {
        Ok(s) => Ok(s@),
        Err(m) => Err(m@),
    }
}

/// Success with the text `s`.
pub open spec fn ok_text(s: Seq<char>) -> Result<Seq<char>, Seq<char>> {
    Ok(s)
}

/// `s` holds an `&`, the start of an entity or character reference.
pub open spec fn has_ampersand(s: Seq<char>) -> bool {
    s.contains('&')
}

// The result of `quick_xml::escape::unescape` on a text, with the message of its error.
pub uninterp spec fn unescape_result(raw: Seq<char>) -> Result<Seq<char>, Seq<char>>;

/// Replaces XML entity and character references by the characters they stand for.
///
/// Calls `quick_xml::escape::unescape`. Claimed besides the name: text without `&`
/// comes back unchanged (the function returns its input when it finds no `&`).
#[verifier::external_body]
pub(crate) fn xml_unescape(raw: &str) -> (r: Result<String, String>)
    ensures
        result_views(r) == unescape_result(raw@),
        !has_ampersand(raw@) ==> result_views(r) == ok_text(raw@),
{
    match quick_xml::escape::unescape(raw) {
        Ok(s) => Ok(s.into_owned()),
        Err(e) => Err(e.to_string()),
    }
}

} // verus!
