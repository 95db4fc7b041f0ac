//! Tokenising a language model reply with quick-xml.
//!
//! quick-xml's `Reader` does the tokenising; what it yields for a text is
//! named by `xml_events`.  The library turns each event into an
//! [`XmlToken`] whose tag names are decoded and lower-cased, so that the
//! reply's tags are matched without regard to case.

use quick_xml::events::Event;
use quick_xml::Reader;
use vstd::prelude::*;
use vstd::utf8::{
    decode_utf8, encode_utf8, encode_utf8_decode_utf8, encode_utf8_valid_utf8, is_ascii_chars,
    is_ascii_chars_encode_utf8, valid_utf8,
};

verus! {

#[verifier::external_type_specification]
#[verifier::external_body]
#[verifier::reject_recursive_types(R)]
pub struct ExReader<R>(Reader<R>);

/// One event of quick-xml's reader, with the data the library reads of it.
pub enum RawEvent {
    /// An opening tag, with its local name as raw bytes.
    Start(Vec<u8>),
    /// A self-closing tag, with its local name as raw bytes.
    Empty(Vec<u8>),
    /// A closing tag, with its local name as raw bytes.
    End(Vec<u8>),
    /// Character data with entities resolved (empty when they could not be).
    Text(String),
    /// The end of the input.
    Eof,
    /// A syntax or well-formedness error, with the reader's description of it.
    Failure(String),
    /// A comment, CDATA section, declaration, processing instruction or doctype.
    Other,
}

/// The view of a [`RawEvent`].
pub enum RawEventView {
    Start(Seq<u8>),
    Empty(Seq<u8>),
    End(Seq<u8>),
    Text(Seq<char>),
    Eof,
    Failure(Seq<char>),
    Other,
}

impl View for RawEvent {
    type V = RawEventView;

    open spec fn view(&self) -> RawEventView {
        match self {
            RawEvent::Start(n) => RawEventView::Start(n@),
            RawEvent::Empty(n) => RawEventView::Empty(n@),
            RawEvent::End(n) => RawEventView::End(n@),
            RawEvent::Text(t) => RawEventView::Text(t@),
            RawEvent::Eof => RawEventView::Eof,
            RawEvent::Failure(m) => RawEventView::Failure(m@),
            RawEvent::Other => RawEventView::Other,
        }
    }
}

/// Whether the reader stops at this event (end of input or an error).
pub open spec fn is_final_event(e: RawEventView) -> bool {
    e is Eof || e is Failure
}

/// The events that quick-xml's `Reader::from_str(xml)`, with text trimming
/// switched on, yields for `xml`, converted to [`RawEventView`], up to and
/// including the first end of input or error.
pub uninterp spec fn xml_events(xml: Seq<char>) -> Seq<RawEventView>;

/// The events a reader has still to yield, up to and including the first
/// end of input or error.
pub uninterp spec fn pending_events(reader: Reader<&[u8]>) -> Seq<RawEventView>;

/// Opens a quick-xml reader on `xml` (`Reader::from_str`) and switches on
/// the trimming of white space around text (`Config::trim_text(true)`).
///
/// Trusted: the reader's pending events are `xml_events(xml)`.  Every event
/// other than the end of input or an error consumes input, so the sequence
/// is finite and ends with the first of these.
#[verifier::external_body]
fn open_reader<'a>(xml: &'a str) -> (r: Reader<&'a [u8]>)
    ensures
        pending_events(r) == xml_events(xml@),
        pending_events(r).len() > 0,
        is_final_event(pending_events(r).last()),
        forall|i: int|
            0 <= i < pending_events(r).len() - 1 ==> !is_final_event(
                #[trigger] pending_events(r)[i],
            ),
{
    let mut reader = Reader::from_str(xml);
    reader.config_mut().trim_text(true);
    reader
}

/// Reads the next event (`Reader::read_event_into`), keeping the local name
/// of tags, the unescaped content of text (`BytesText::unescape`) and the
/// description (`Display`) of an error.
///
/// Trusted: the event is the first pending one; when it is neither the end
/// of input nor an error, it is consumed.  What the reader yields after an
/// end or an error is left unsaid (it repeats the end, and goes on after
/// an ill-formed document).
#[verifier::external_body]
fn next_event(reader: &mut Reader<&[u8]>, buf: &mut Vec<u8>) -> (ev: RawEvent)
    requires
        pending_events(*old(reader)).len() > 0,
    ensures
        ev@ == pending_events(*old(reader))[0],
        !is_final_event(pending_events(*old(reader))[0]) ==> pending_events(*final(reader))
            == pending_events(*old(reader)).drop_first(),
{
    match reader.read_event_into(buf) {
        Ok(Event::Start(e)) => RawEvent::Start(e.local_name().as_ref().to_vec()),
        Ok(Event::Empty(e)) => RawEvent::Empty(e.local_name().as_ref().to_vec()),
        Ok(Event::End(e)) => RawEvent::End(e.local_name().as_ref().to_vec()),
        Ok(Event::Text(e)) => RawEvent::Text(match e.unescape() {
            Ok(t) => t.into_owned(),
            Err(_) => String::new(),
        }),
        Ok(Event::Eof) => RawEvent::Eof,
        Ok(_) => RawEvent::Other,
        Err(e) => RawEvent::Failure(e.to_string()),
    }
}

/// What `String::from_utf8_lossy` makes of some bytes.
pub uninterp spec fn utf8_lossy_spec(bytes: Seq<u8>) -> Seq<char>;

/// Decodes bytes as UTF-8, replacing invalid sequences
/// (`String::from_utf8_lossy`).
///
/// Trusted: the result is `utf8_lossy_spec(bytes)`, and valid UTF-8 is
/// decoded as it stands.
#[verifier::external_body]
pub(crate) fn utf8_lossy(bytes: &[u8]) -> (s: String)
    ensures
        s@ == utf8_lossy_spec(bytes@),
        valid_utf8(bytes@) ==> s@ == decode_utf8(bytes@),
{
    String::from_utf8_lossy(bytes).into_owned()
}

/// What `str::to_lowercase` makes of a string (Unicode lower case).
pub uninterp spec fn lowercase_spec(s: Seq<char>) -> Seq<char>;

/// The lower case of an ASCII character: `A` to `Z` become `a` to `z`.
pub open spec fn ascii_lower(c: char) -> char {
    if 'A' <= c && c <= 'Z' {
        ((c as int) + 32) as char
    } else {
        c
    }
}

/// The Unicode lower case of `s` (`str::to_lowercase`).
///
/// Trusted: the result is `lowercase_spec(s)`, and text of ASCII
/// characters only is lower-cased character by character.
#[verifier::external_body]
pub(crate) fn to_lowercase(s: &str) -> (r: String)
    ensures
        r@ == lowercase_spec(s@),
        (forall|i: int| 0 <= i < s@.len() ==> (#[trigger] s@[i] as int) < 128) ==> r@
            == s@.map_values(|c: char| ascii_lower(c)),
{
    s.to_lowercase()
}

/// A tag name as the library compares it: decoded and lower-cased.
pub open spec fn tag_name_spec(raw: Seq<u8>) -> Seq<char> {
    lowercase_spec(utf8_lossy_spec(raw))
}

/// One token of a reply: an event with its tag name decoded and lower-cased.
#[derive(Debug)]
pub enum XmlToken {
    /// An opening tag `<name ...>`.
    Start(String),
    /// A self-closing tag `<name .../>`.
    Empty(String),
    /// A closing tag `</name>`.
    End(String),
    /// Character data.
    Text(String),
    /// The end of the input.
    Eof,
    /// A syntax or well-formedness error, with its description.
    Failure(String),
    /// Anything else (comments, CDATA, declarations, ...).
    Other,
}

/// The view of an [`XmlToken`].
pub enum XmlTokenView {
    Start(Seq<char>),
    Empty(Seq<char>),
    End(Seq<char>),
    Text(Seq<char>),
    Eof,
    Failure(Seq<char>),
    Other,
}

impl View for XmlToken {
    type V = XmlTokenView;

    open spec fn view(&self) -> XmlTokenView {
        match self {
            XmlToken::Start(n) => XmlTokenView::Start(n@),
            XmlToken::Empty(n) => XmlTokenView::Empty(n@),
            XmlToken::End(n) => XmlTokenView::End(n@),
            XmlToken::Text(t) => XmlTokenView::Text(t@),
            XmlToken::Eof => XmlTokenView::Eof,
            XmlToken::Failure(m) => XmlTokenView::Failure(m@),
            XmlToken::Other => XmlTokenView::Other,
        }
    }
}

/// The token for an event.
pub open spec fn token_of(e: RawEventView) -> XmlTokenView {
    match e {
        RawEventView::Start(n) => XmlTokenView::Start(tag_name_spec(n)),
        RawEventView::Empty(n) => XmlTokenView::Empty(tag_name_spec(n)),
        RawEventView::End(n) => XmlTokenView::End(tag_name_spec(n)),
        RawEventView::Text(t) => XmlTokenView::Text(t),
        RawEventView::Eof => XmlTokenView::Eof,
        RawEventView::Failure(m) => XmlTokenView::Failure(m),
        RawEventView::Other => XmlTokenView::Other,
    }
}

/// Views of a sequence of tokens.
pub open spec fn token_views(t: Seq<XmlToken>) -> Seq<XmlTokenView> {
    t.map_values(|x: XmlToken| x@)
}

/// The tokens of `xml`: its events as tokens.
pub open spec fn xml_tokens_spec(xml: Seq<char>) -> Seq<XmlTokenView> {
    xml_events(xml).map_values(|e: RawEventView| token_of(e))
}

/// The decoded, lower-cased form of a raw tag name.
fn tag_name(raw: &Vec<u8>) -> (s: String)
    ensures
        s@ == tag_name_spec(raw@),
        is_ascii_bytes(raw@) ==> s@ == ascii_name(raw@),
{
    let decoded = utf8_lossy(raw.as_slice());
    proof {
        if is_ascii_bytes(raw@) {
            lemma_ascii_decode(raw@);
        }
    }
    to_lowercase(decoded.as_str())
}

/// Whether every byte is ASCII.
pub open spec fn is_ascii_bytes(raw: Seq<u8>) -> bool {
    forall|i: int| 0 <= i < raw.len() ==> #[trigger] raw[i] < 128
}

/// The characters of ASCII bytes.
pub open spec fn ascii_chars(raw: Seq<u8>) -> Seq<char> {
    raw.map_values(|b: u8| b as char)
}

/// An ASCII tag name in lower case: `A` to `Z` read as `a` to `z`.
pub open spec fn ascii_name(raw: Seq<u8>) -> Seq<char> {
    ascii_chars(raw).map_values(|c: char| ascii_lower(c))
}

/// ASCII bytes are valid UTF-8 and decode to the characters of the same codes.
proof fn lemma_ascii_decode(raw: Seq<u8>)
    requires
        is_ascii_bytes(raw),
    ensures
        valid_utf8(raw),
        decode_utf8(raw) == ascii_chars(raw),
        forall|i: int| 0 <= i < raw.len() ==> (#[trigger] ascii_chars(raw)[i] as int) < 128,
{
    let chars = ascii_chars(raw);
    assert forall|i: int| 0 <= i < chars.len() implies '\0' <= #[trigger] chars[i] <= '\u{7f}' by {
        assert(chars[i] == raw[i] as char);
    }
    assert(is_ascii_chars(chars));
    is_ascii_chars_encode_utf8(chars);
    assert forall|i: int| 0 <= i < raw.len() implies #[trigger] encode_utf8(chars)[i] == raw[i] by {
        assert(chars[i] == raw[i] as char);
        assert(chars[i] as u8 == encode_utf8(chars)[i]);
    }
    assert(encode_utf8(chars) =~= raw);
    encode_utf8_valid_utf8(chars);
    encode_utf8_decode_utf8(chars);
}

/// Whether a token read from an event with an ASCII tag name carries that
/// name in lower case.
pub open spec fn ascii_read(e: RawEventView, t: XmlTokenView) -> bool {
    match e {
        RawEventView::Start(n) => is_ascii_bytes(n) ==> t == XmlTokenView::Start(ascii_name(n)),
        RawEventView::Empty(n) => is_ascii_bytes(n) ==> t == XmlTokenView::Empty(ascii_name(n)),
        RawEventView::End(n) => is_ascii_bytes(n) ==> t == XmlTokenView::End(ascii_name(n)),
        _ => true,
    }
}

/// The token for one event.
fn to_token(e: RawEvent) -> (t: XmlToken)
    ensures
        t@ == token_of(e@),
        ascii_read(e@, t@),
{
    match e {
        RawEvent::Start(n) => XmlToken::Start(tag_name(&n)),
        RawEvent::Empty(n) => XmlToken::Empty(tag_name(&n)),
        RawEvent::End(n) => XmlToken::End(tag_name(&n)),
        RawEvent::Text(t) => XmlToken::Text(t),
        RawEvent::Eof => XmlToken::Eof,
        RawEvent::Failure(m) => XmlToken::Failure(m),
        RawEvent::Other => XmlToken::Other,
    }
}

/// Reads `xml` with quick-xml up to the end of input or the first error and
/// returns its tokens.  Tag names written in ASCII are read in lower case,
/// so that `<COMMIT>`, `<Commit>` and `<commit>` give the same token.
pub fn xml_tokens(xml: &str) -> (toks: Vec<XmlToken>)
    ensures
        token_views(toks@) == xml_tokens_spec(xml@),
        forall|i: int|
            0 <= i < toks@.len() ==> ascii_read(xml_events(xml@)[i], #[trigger] toks@[i]@),
{
    let mut reader = open_reader(xml);
    let mut buf: Vec<u8> = Vec::new();
    let mut toks: Vec<XmlToken> = Vec::new();
    let ghost all = xml_events(xml@);
    loop
        invariant
            all == xml_events(xml@),
            all.len() > 0,
            is_final_event(all.last()),
            forall|i: int| 0 <= i < all.len() - 1 ==> !is_final_event(#[trigger] all[i]),
            toks@.len() < all.len(),
            pending_events(reader) == all.skip(toks@.len() as int),
            token_views(toks@) == all.take(toks@.len() as int).map_values(
                |e: RawEventView| token_of(e),
            ),
            forall|i: int| 0 <= i < toks@.len() ==> ascii_read(all[i], #[trigger] toks@[i]@),
        decreases pending_events(reader).len(),
    {
        let ghost n = toks@.len() as int;
        let ev = next_event(&mut reader, &mut buf);
        let stop = match ev {
            RawEvent::Eof => true,
            RawEvent::Failure(_) => true,
            _ => false,
        };
        let ghost ev_view = ev@;
        let tok = to_token(ev);
        let ghost tok_view = tok@;
        let ghost old_toks = toks@;
        toks.push(tok);
        proof {
            assert(ev_view == all[n]);
            assert(toks@ =~= old_toks.push(toks@[n]));
            assert(toks@[n]@ == tok_view);
            assert forall|i: int| 0 <= i < n + 1 implies #[trigger] token_views(toks@)[i]
                == all.take(n + 1).map_values(|e: RawEventView| token_of(e))[i] by {
                if i < n {
                    assert(token_views(toks@)[i] == token_views(old_toks)[i]);
                }
            }
            assert(all.skip(n).drop_first() =~= all.skip(n + 1));
            assert(all.take(n + 1) =~= all.take(n).push(all[n]));
            assert(token_views(toks@) =~= all.take(n + 1).map_values(
                |e: RawEventView| token_of(e),
            ));
        }
        if stop {
            proof {
                assert(n == all.len() - 1);
                assert(all.take(n + 1) =~= all);
            }
            return toks;
        }
        buf.clear();
    }
}

} // verus!
