//! XML tags as plain values, read with quick-xml.

use vstd::prelude::*;
use quick_xml::events::{BytesStart, Event};
use quick_xml::reader::Reader;

verus! {

/// One event of an XML reader: a start tag or a self-closing tag, each with
/// its name and its raw content (the name followed by the attributes, as
/// written), an end tag with its name, or anything else (text, comments,
/// declarations).
pub enum XmlTag {
    Start(String, String),
    Empty(String, String),
    End(String),
    Other,
}

/// An XML tag as plain characters.
pub enum TagView {
    Start(Seq<char>, Seq<char>),
    Empty(Seq<char>, Seq<char>),
    End(Seq<char>),
    Other,
}

/// The view of a tag.
pub open spec fn tag_view(t: XmlTag) -> TagView {
    match t {
        XmlTag::Start(n, raw) => TagView::Start(n@, raw@),
        XmlTag::Empty(n, raw) => TagView::Empty(n@, raw@),
        XmlTag::End(n) => TagView::End(n@),
        XmlTag::Other => TagView::Other,
    }
}

/// The views of a list of tags.
pub open spec fn tag_views(v: Seq<XmlTag>) -> Seq<TagView> {
    v.map_values(|t: XmlTag| tag_view(t))
}

/// `name` begins `raw`.
pub open spec fn is_prefix(name: Seq<char>, raw: Seq<char>) -> bool {
    name.len() <= raw.len() && raw.take(name.len() as int) == name
}

/// A start tag's raw content begins with its name.
pub open spec fn name_leads(t: XmlTag) -> bool {
    match t {
        XmlTag::Start(n, raw) => is_prefix(n@, raw@),
        XmlTag::Empty(n, raw) => is_prefix(n@, raw@),
        _ => true,
    }
}

/// What quick-xml's reader reads from a document: the events up to the end
/// of input or the first error, and that error's message.
pub uninterp spec fn xml_scan(content: Seq<char>) -> (Seq<TagView>, Option<Seq<char>>);

/// Reads `content` with quick-xml's `Reader::from_str` and `read_event`, one
/// event after another until the end of input or the first error. Each
/// event becomes an `XmlTag` (names and raw tag contents taken as text) and
/// an error becomes its message ("XML parse error at position ..."). The
/// result is named `xml_scan` of the input. Beside the name, the one fact
/// stated is that a start tag's name is the beginning of its raw content
/// (quick-xml takes the name as the first bytes of the tag). Nothing more
/// of quick-xml's parsing is stated.
#[verifier::external_body]
pub(crate) fn xml_tags(content: &str) -> (r: (Vec<XmlTag>, Option<String>))
    ensures
        (tag_views(r.0@), match r.1 { Some(e) => Some(e@), None => None }) == xml_scan(content@),
        forall|i: int| 0 <= i < r.0@.len() ==> name_leads(#[trigger] r.0@[i]),
{
    let mut rd = Reader::from_str(content);
    let s = |b: &[u8]| String::from_utf8_lossy(b).into_owned();
    let mut v = Vec::new();
    loop {
        v.push(match rd.read_event() {
            Ok(Event::Start(e)) => XmlTag::Start(s(e.name().0), s(&e)),
            Ok(Event::Empty(e)) => XmlTag::Empty(s(e.name().0), s(&e)),
            Ok(Event::End(e)) => XmlTag::End(s(e.name().0)),
            Ok(Event::Eof) => return (v, None),
            Ok(_) => XmlTag::Other,
            Err(e) => return (v, Some(format!("XML parse error at position {}: {}", rd.error_position(), e))),
        });
    }
}

/// Attribute slots as plain characters.
pub open spec fn slot_views(v: Seq<Option<(String, String)>>) -> Seq<Option<(Seq<char>, Seq<char>)>> {
    v.map_values(
        |o: Option<(String, String)>|
            match o {
                Some(p) => Some((p.0@, p.1@)),
                None => None,
            },
    )
}

/// The attributes that quick-xml reads from a tag's raw content after its
/// name: each key and value, or `None` for one it cannot read.
pub uninterp spec fn attribute_scan(raw: Seq<char>, name: Seq<char>) -> Seq<Option<(Seq<char>, Seq<char>)>>;

/// Reads the attributes of a tag with quick-xml's `BytesStart::attributes`,
/// the tag rebuilt from its raw content and the length of its name
/// (`BytesStart::from_content`); keys and values are taken as text and an
/// attribute that cannot be read becomes `None`. The result is named
/// `attribute_scan` of the arguments; nothing more is stated. `name` must
/// begin `raw`, so that the name's length lies within the content.
#[verifier::external_body]
pub(crate) fn tag_attributes(raw: &str, name: &str) -> (r: Vec<Option<(String, String)>>)
    requires
        is_prefix(name@, raw@),
    ensures
        slot_views(r@) == attribute_scan(raw@, name@),
{
    let s = |b: &[u8]| String::from_utf8_lossy(b).into_owned();
    BytesStart::from_content(raw, name.len()).attributes().map(|a| a.ok().map(|a| (s(a.key.0), s(&a.value)))).collect()
}

} // verus!
