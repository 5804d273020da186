//! Reading XML with `quick_xml`. A cursor owns a reader over a text and
//! counts the events read from it, so that each event and each byte
//! position can be named as a function of the text and of how many events
//! came before.

use vstd::prelude::*;
use vstd::string::StringSliceAdditionalSpecFns;
use vstd::utf8::{decode_utf8, is_char_boundary};

use crate::text::starts_with;

use quick_xml::events::Event;
use quick_xml::reader::Reader;

verus! {

/// Declares `quick_xml::reader::Reader` for use in fields; it is opaque.
#[verifier::external_type_specification]
#[verifier::external_body]
#[verifier::reject_recursive_types(R)]
pub struct ExXmlReader<R>(Reader<R>);

/// An XML event as the library reads it: start and end tags by name, text
/// content, the end of input, anything else, or a parse error message.
#[derive(Debug)]
pub enum XmlEvent {
    Start(String),
    End(String),
    Text(String),
    Eof,
    Other,
    Error(String),
}

/// An XML event as plain values.
pub enum XmlEventView {
    Start(Seq<char>),
    End(Seq<char>),
    Text(Seq<char>),
    Eof,
    Other,
    Error(Seq<char>),
}

impl View for XmlEvent {
    type V = XmlEventView;

    open spec fn view(&self) -> XmlEventView {
        match self {
            XmlEvent::Start(s) => XmlEventView::Start(s@),
            XmlEvent::End(s) => XmlEventView::End(s@),
            XmlEvent::Text(s) => XmlEventView::Text(s@),
            XmlEvent::Eof => XmlEventView::Eof,
            XmlEvent::Other => XmlEventView::Other,
            XmlEvent::Error(s) => XmlEventView::Error(s@),
        }
    }
}

/// The event that `Reader::read_event` returns, converted as `XmlEvent`,
/// when it is called for the time after `events_read` earlier calls on a
/// reader made by `Reader::from_str(text)` with `trim_text(false)`.
pub uninterp spec fn xml_event(text: Seq<char>, events_read: nat) -> XmlEventView;

/// What `Reader::buffer_position` returns after `events_read` calls of
/// `read_event` on a reader made by `Reader::from_str(text)` with
/// `trim_text(false)`.
pub uninterp spec fn xml_offset(text: Seq<char>, events_read: nat) -> u64;

/// Whether a text starts with a byte order mark.
pub open spec fn has_bom(text: Seq<char>) -> bool {
    text.len() > 0 && text[0] == '\u{feff}'
}

/// How many bytes of the text come before what the reader counts: the
/// reader skips a leading byte order mark (3 bytes in UTF-8) without
/// counting it, so its positions are offsets from the byte after it.
pub open spec fn bom_len(text: Seq<char>) -> nat {
    if has_bom(text) {
        3
    } else {
        0
    }
}

/// What the reader guarantees of the event it reads after `n` earlier ones
/// on `text` (whose UTF-8 bytes are `bytes`), with its positions taken as
/// byte offsets after `bom_len(text)`:
/// - an event other than the end of input or an error takes at least one
///   byte, and ends within the input on a character boundary;
/// - an end tag starts, at the position before it was read, with `</` and
///   its name.
pub open spec fn reader_step(text: Seq<char>, bytes: Seq<u8>, n: nat) -> bool {
    let ev = xml_event(text, n);
    let before = xml_offset(text, n) + bom_len(text);
    let after = xml_offset(text, n + 1) + bom_len(text);
    let consumed = !(ev is Eof) && !(ev is Error);
    &&& consumed ==> before < after && after <= bytes.len() && is_char_boundary(bytes, after)
    &&& ev matches XmlEventView::End(name) ==> starts_with(
        decode_utf8(bytes.subrange(before, bytes.len() as int)),
        "</"@ + name,
    )
}

/// A reader over a text together with the number of events read from it.
/// The fields are private: a cursor is only made by `open_xml` and only
/// advanced by `next_event`, both of which make the calls into `quick_xml`.
pub struct XmlCursor<'a> {
    reader: Reader<&'a [u8]>,
    text: Ghost<Seq<char>>,
    bytes: Ghost<Seq<u8>>,
    count: Ghost<nat>,
}

impl<'a> XmlCursor<'a> {
    /// The text being read.
    pub closed spec fn source(&self) -> Seq<char> {
        self.text@
    }

    /// The UTF-8 bytes of the text being read.
    pub closed spec fn source_bytes(&self) -> Seq<u8> {
        self.bytes@
    }

    /// How many events have been read.
    pub closed spec fn events_read(&self) -> nat {
        self.count@
    }
}

/// Calls `quick_xml::reader::Reader::from_str` on `text` and sets
/// `trim_text(false)` on its configuration, so that text events keep their
/// whitespace. The contract claims that the cursor reads `text`, has read
/// nothing, and stands at byte 0 (a new reader's `buffer_position`).
#[verifier::external_body]
pub fn open_xml<'a>(text: &'a str) -> (c: XmlCursor<'a>)
    ensures
        c.source() == text@,
        c.source_bytes() == text.spec_bytes(),
        c.events_read() == 0,
        xml_offset(c.source(), c.events_read()) == 0,
{
    let mut reader = Reader::from_str(text);
    reader.config_mut().trim_text(false);
    XmlCursor { reader, text: Ghost(text@), bytes: Ghost(text.spec_bytes()), count: Ghost(0) }
}

impl<'a> XmlCursor<'a> {
    /// Calls `Reader::read_event` and converts the event (tag names, text
    /// and error messages as strings, one arm per kind). The contract claims
    /// that it is the event named by `xml_event` for the text and the number
    /// of events read before, that the count goes up by one, and the facts
    /// of `reader_step` about the positions before and after it, which the
    /// reader's source shows: a leading byte order mark is dropped from the
    /// input without being counted; text runs up to the next `<` or `&`,
    /// markup up to and including its `>`, a reference up to its `;`; and
    /// only the end of input consumes nothing.
    #[verifier::external_body]
    pub fn next_event(&mut self) -> (ev: XmlEvent)
        ensures
            ev@ == xml_event(old(self).source(), old(self).events_read()),
            final(self).source() == old(self).source(),
            final(self).source_bytes() == old(self).source_bytes(),
            final(self).events_read() == old(self).events_read() + 1,
            reader_step(old(self).source(), old(self).source_bytes(), old(self).events_read()),
    {
        let ev = match self.reader.read_event() {
            Ok(Event::Start(e)) => XmlEvent::Start(AsRef::<str>::as_ref(&e.name()).to_string()),
            Ok(Event::End(e)) => XmlEvent::End(AsRef::<str>::as_ref(&e.name()).to_string()),
            Ok(Event::Text(t)) => XmlEvent::Text(AsRef::<str>::as_ref(&t).to_string()),
            Ok(Event::Eof) => XmlEvent::Eof,
            Ok(_) => XmlEvent::Other,
            Err(e) => XmlEvent::Error(format!("{e}")),
        };
        self.count = Ghost(self.count@ + 1);
        ev
    }

    /// Calls `Reader::buffer_position`: where the last event read ended, as
    /// named by `xml_offset`, counted from the byte after a leading byte
    /// order mark (see `bom_len`).
    #[verifier::external_body]
    pub fn position(&self) -> (p: u64)
        ensures
            p == xml_offset(self.source(), self.events_read()),
    {
        self.reader.buffer_position()
    }
}

} // verus!
