//! Markup as a sequence of events.
use vstd::prelude::*;
use crate::text;
use quick_xml::events::{BytesStart, Event};

verus! {

/// An attribute of an element.
#[derive(Debug, Clone)]
pub struct XmlAttr {
    /// The name as it is written.
    pub name: String,
    /// The value as it is written.
    pub raw: String,
    /// The value with its escapes resolved, or nothing where they cannot be.
    pub value: String,
}

/// What a reader of markup meets.
#[derive(Debug, Clone)]
pub enum XmlEvent {
    /// The start tag of an element, by its name without prefix.
    Start { name: String, attrs: Vec<XmlAttr> },
    /// An element without content, by its name without prefix.
    Empty { name: String, attrs: Vec<XmlAttr> },
    /// The end tag of an element, by its name without prefix.
    End { name: String },
    /// Text between tags, with its escapes resolved, or nothing where they cannot be.
    Text(String),
    /// A character data section.
    CData(String),
    /// A comment, a declaration or the like.
    Other,
}

/// What a reader of markup hands out, with its tags unread.
pub enum RawEvent {
    /// What stands between the brackets of a start tag.
    Start(String),
    /// What stands between the brackets of an element without content.
    Empty(String),
    /// The name in an end tag.
    End(String),
    /// Text between tags, with its escapes resolved, or nothing where they cannot be.
    Text(String),
    /// A character data section.
    CData(String),
    /// A comment, a declaration or the like.
    Other,
    /// The end of the input, or markup that cannot be read.
    Done,
}

/// An attribute, by its texts.
pub struct Attr {
    pub name: Seq<char>,
    pub raw: Seq<char>,
    pub value: Seq<char>,
}

/// An event, by its texts.
pub enum Xml {
    Start { name: Seq<char>, attrs: Seq<Attr> },
    Empty { name: Seq<char>, attrs: Seq<Attr> },
    End { name: Seq<char> },
    Text(Seq<char>),
    CData(Seq<char>),
    Other,
}

/// An event with its tags unread, by its texts.
pub enum RawXml {
    Start(Seq<char>),
    Empty(Seq<char>),
    End(Seq<char>),
    Text(Seq<char>),
    CData(Seq<char>),
    Other,
    Done,
}

impl View for XmlAttr {
    type V = Attr;

    open spec fn view(&self) -> Attr {
        Attr { name: self.name@, raw: self.raw@, value: self.value@ }
    }
}

/// The views of attributes.
pub open spec fn attr_views(v: Seq<XmlAttr>) -> Seq<Attr> {
    v.map_values(|a: XmlAttr| a@)
}

impl View for XmlEvent {
    type V = Xml;

    open spec fn view(&self) -> Xml {
        match self {
            XmlEvent::Start { name, attrs } => Xml::Start {
                name: name@,
                attrs: attr_views(attrs@),
            },
            XmlEvent::Empty { name, attrs } => Xml::Empty {
                name: name@,
                attrs: attr_views(attrs@),
            },
            XmlEvent::End { name } => Xml::End { name: name@ },
            XmlEvent::Text(t) => Xml::Text(t@),
            XmlEvent::CData(t) => Xml::CData(t@),
            XmlEvent::Other => Xml::Other,
        }
    }
}

impl View for RawEvent {
    type V = RawXml;

    open spec fn view(&self) -> RawXml {
        match self {
            RawEvent::Start(t) => RawXml::Start(t@),
            RawEvent::Empty(t) => RawXml::Empty(t@),
            RawEvent::End(t) => RawXml::End(t@),
            RawEvent::Text(t) => RawXml::Text(t@),
            RawEvent::CData(t) => RawXml::CData(t@),
            RawEvent::Other => RawXml::Other,
            RawEvent::Done => RawXml::Done,
        }
    }
}

/// The views of events.
pub open spec fn event_views(v: Seq<XmlEvent>) -> Seq<Xml> {
    v.map_values(|e: XmlEvent| e@)
}

// ── Tags ───────────────────────────────────────────────────────────────────────

/// The characters that end a name in a tag.
pub const TAG_SPACE: [char; 4] = [' ', '\t', '\r', '\n'];

/// The name at the front of a tag.
pub open spec fn tag_name(tag: Seq<char>) -> Seq<char> {
    text::first_piece(tag, TAG_SPACE@)
}

/// A tag begins with its name.
pub proof fn tag_begins_with_name(tag: Seq<char>)
    ensures
        text::begins(tag, tag_name(tag)),
{
    text::sep_from_bounds(tag, TAG_SPACE@, 0);
    assert(tag.subrange(0, tag_name(tag).len() as int) =~= tag_name(tag));
}

/// A name without its prefix: all up to and with the first colon is removed.
pub open spec fn local_name(name: Seq<char>) -> Seq<char> {
    match text::split_at_first(name, ':') {
        Some(p) => p.1,
        None => name,
    }
}

/// A name without its prefix.
pub fn local_part(name: &str) -> (r: String)
    ensures
        r@ == local_name(name@),
{
    match text::split_once(name, ':') {
        Some(p) => p.1,
        None => name.to_owned(),
    }
}

/// The attributes behind the name in a tag, as `BytesStart::attributes` of quick-xml gives
/// them, without those that are malformed.
pub uninterp spec fn tag_attrs(tag: Seq<char>, name: Seq<char>) -> Seq<Attr>;

/// `BytesStart::attributes` of quick-xml on a tag that begins with the name: a function of the
/// tag and the name alone. Each attribute that can be read is handed on as its name, its value
/// as it is written, and the result of `Attribute::unescape_value` (or nothing where that
/// fails).
#[verifier::external_body]
pub(crate) fn attributes(tag: &str, name: &str) -> (r: Vec<XmlAttr>)
    requires
        text::begins(tag@, name@),
    ensures
        attr_views(r@) == tag_attrs(tag@, name@),
{
    BytesStart::from_content(tag, name.len()).attributes().flatten().map(
        |a| XmlAttr {
            name: String::from_utf8_lossy(a.key.as_ref()).into_owned(),
            raw: String::from_utf8_lossy(&a.value).into_owned(),
            value: a.unescape_value().unwrap_or_default().into_owned(),
        },
    ).collect()
}

// ── Events ─────────────────────────────────────────────────────────────────────

/// The reader of quick-xml.
#[verifier::external_type_specification]
#[verifier::external_body]
#[verifier::reject_recursive_types(R)]
pub struct ExReader<R>(quick_xml::Reader<R>);

/// The events of a text before its end and before any markup that cannot be read, as the
/// reader of quick-xml gives them with white space around text removed.
pub uninterp spec fn xml_events(text: Seq<char>) -> Seq<RawXml>;

/// The events that a reader has yet to give before the end and before any markup that cannot
/// be read.
pub uninterp spec fn pending(reader: quick_xml::Reader<&[u8]>) -> Seq<RawXml>;

/// `Reader::from_str` of quick-xml, with `trim_text` set: the reader has yet to give all
/// events of the text.
#[verifier::external_body]
pub(crate) fn open_reader(text: &str) -> (r: quick_xml::Reader<&[u8]>)
    ensures
        pending(r) == xml_events(text@),
{
    let mut r = quick_xml::Reader::from_str(text);
    r.config_mut().trim_text(true);
    r
}

/// `Reader::read_event` of quick-xml: gives the first event that is pending and leaves the
/// others, or says that it is done where none is. What a reader gives after that is not
/// stated.
#[verifier::external_body]
pub(crate) fn next_event(reader: &mut quick_xml::Reader<&[u8]>) -> (r: RawEvent)
    ensures
        pending(*old(reader)).len() > 0 ==> r@ == pending(*old(reader))[0] && r@ !is Done,
        pending(*old(reader)).len() > 0 ==> pending(*final(reader)) == pending(
            *old(reader),
        ).drop_first(),
        pending(*old(reader)).len() == 0 ==> r@ is Done,
{
    match reader.read_event() {
        Ok(Event::Start(e)) => RawEvent::Start(String::from_utf8_lossy(&e).into_owned()),
        Ok(Event::Empty(e)) => RawEvent::Empty(String::from_utf8_lossy(&e).into_owned()),
        Ok(Event::End(e)) => RawEvent::End(String::from_utf8_lossy(&e).into_owned()),
        Ok(Event::Text(e)) => RawEvent::Text(e.unescape().unwrap_or_default().into_owned()),
        Ok(Event::CData(e)) => RawEvent::CData(String::from_utf8_lossy(&e).into_owned()),
        Ok(Event::Eof) | Err(_) => RawEvent::Done,
        Ok(_) => RawEvent::Other,
    }
}

/// An event with its tag read.
pub open spec fn with_tag_read(e: RawXml) -> Xml {
    match e {
        RawXml::Start(t) => Xml::Start {
            name: local_name(tag_name(t)),
            attrs: tag_attrs(t, tag_name(t)),
        },
        RawXml::Empty(t) => Xml::Empty {
            name: local_name(tag_name(t)),
            attrs: tag_attrs(t, tag_name(t)),
        },
        RawXml::End(t) => Xml::End { name: local_name(t) },
        RawXml::Text(t) => Xml::Text(t),
        RawXml::CData(t) => Xml::CData(t),
        RawXml::Other => Xml::Other,
        RawXml::Done => Xml::Other,
    }
}

/// The events of a text, with their tags read.
pub open spec fn events_in(text: Seq<char>) -> Seq<Xml> {
    xml_events(text).map_values(|e: RawXml| with_tag_read(e))
}

/// Reads the tag of an event.
pub fn read_tag(e: RawEvent) -> (r: XmlEvent)
    ensures
        r@ == with_tag_read(e@),
{
    match e {
        RawEvent::Start(t) => {
            let name = text::split_first(&t, &TAG_SPACE);
            proof {
                tag_begins_with_name(t@);
            }
            let attrs = attributes(&t, &name);
            XmlEvent::Start { name: local_part(&name), attrs }
        },
        RawEvent::Empty(t) => {
            let name = text::split_first(&t, &TAG_SPACE);
            proof {
                tag_begins_with_name(t@);
            }
            let attrs = attributes(&t, &name);
            XmlEvent::Empty { name: local_part(&name), attrs }
        },
        RawEvent::End(t) => XmlEvent::End { name: local_part(&t) },
        RawEvent::Text(t) => XmlEvent::Text(t),
        RawEvent::CData(t) => XmlEvent::CData(t),
        RawEvent::Other => XmlEvent::Other,
        RawEvent::Done => XmlEvent::Other,
    }
}

/// Reads the events of a text up to its end or to markup that cannot be read.
pub fn read_events(text: &str) -> (r: Vec<XmlEvent>)
    ensures
        event_views(r@) == events_in(text@),
{
    let mut reader = open_reader(text);
    let mut events: Vec<XmlEvent> = Vec::new();
    let ghost all = xml_events(text@);
    loop
        invariant_except_break
            pending(reader) == all.skip(events@.len() as int),
        invariant
            all == xml_events(text@),
            events@.len() <= all.len(),
            event_views(events@) == all.take(events@.len() as int).map_values(
                |e: RawXml| with_tag_read(e),
            ),
        ensures
            events@.len() == all.len(),
        decreases all.len() - events@.len(),
    {
        let raw = next_event(&mut reader);
        if let RawEvent::Done = raw {
            break;
        }
        let ghost seen = events@;
        let ghost e = raw@;
        events.push(read_tag(raw));
        proof {
            assert(e == all[seen.len() as int]);
            assert(all.skip(seen.len() as int).drop_first() =~= all.skip(events@.len() as int));
            assert(event_views(events@) =~= event_views(seen).push(with_tag_read(e)));
            assert(all.take(events@.len() as int).map_values(|e: RawXml| with_tag_read(e)) =~= all.take(
                seen.len() as int,
            ).map_values(|e: RawXml| with_tag_read(e)).push(with_tag_read(e)));
        }
    }
    proof {
        assert(all.take(events@.len() as int) =~= all);
    }
    events
}

// ── Laws ─────────────────────────────────────────────────────────────────────

/// The name of an element is what stands before the white space in its tag, without a prefix up to
/// a colon.
pub proof fn names_are_read_without_prefix(prefix: Seq<char>, name: Seq<char>, rest: Seq<char>)
    requires
        !prefix.contains(':'),
        !name.contains(':'),
        forall|i: int| 0 <= i < prefix.len() ==> !TAG_SPACE@.contains(#[trigger] prefix[i]),
        forall|i: int| 0 <= i < name.len() ==> !TAG_SPACE@.contains(#[trigger] name[i]),
        rest.len() == 0 || rest[0] == ' ' || rest[0] == '\n',
    ensures
        local_name(name) == name,
        local_name(prefix + seq![':'] + name) == name,
        tag_name(name + rest) == name,
        tag_name(prefix + seq![':'] + name + rest) == prefix + seq![':'] + name,
{
    assert(TAG_SPACE@ =~= seq![' ', '\t', '\r', '\n']);
    assert(TAG_SPACE@[0] == ' ' && TAG_SPACE@[3] == '\n');
    text::no_split(name, ':');
    text::split_around(prefix, ':', name);
    text::first_piece_is_front(name, rest, TAG_SPACE@);
    let whole = prefix + seq![':'] + name;
    assert forall|i: int| 0 <= i < whole.len() implies !TAG_SPACE@.contains(#[trigger] whole[i]) by {
        if i < prefix.len() {
            assert(whole[i] == prefix[i]);
        } else if i > prefix.len() {
            assert(whole[i] == name[i - prefix.len() - 1]);
        }
    }
    text::first_piece_is_front(whole, rest, TAG_SPACE@);
}

/// Text and character data come through as they are, each as what it is; a start tag stays one and
/// an end tag too.
pub proof fn events_stay_what_they_are(t: Seq<char>)
    ensures
        with_tag_read(RawXml::Text(t)) == Xml::Text(t),
        with_tag_read(RawXml::CData(t)) == Xml::CData(t),
        with_tag_read(RawXml::Start(t)) is Start,
        with_tag_read(RawXml::Empty(t)) is Empty,
        with_tag_read(RawXml::End(t)) is End,
        with_tag_read(RawXml::Start(t))->Start_attrs == tag_attrs(t, tag_name(t)),
        with_tag_read(RawXml::Empty(t))->Empty_attrs == tag_attrs(t, tag_name(t)),
{
}

} // verus!
