use quick_xml::events::{BytesEnd, BytesStart, BytesText, Event};
use vstd::prelude::*;
use vstd::utf8::encode_utf8;

verus! {

/// The error that writing an XML event into a buffer reports.
#[verifier::external_type_specification]
#[verifier::external_body]
pub struct ExIoError(std::io::Error);

/// The replacement text that `quick_xml::escape::escape` writes for a
/// character of text content.
pub open spec fn escape_char(c: char) -> Seq<char> {
    if c == '<' {
        "&lt;"@
    } else if c == '>' {
        "&gt;"@
    } else if c == '&' {
        "&amp;"@
    } else if c == '\'' {
        "&apos;"@
    } else if c == '"' {
        "&quot;"@
    } else if c == '\r' {
        "&#13;"@
    } else {
        seq![c]
    }
}

/// Text content with the XML special characters escaped.
pub open spec fn xml_escape(s: Seq<char>) -> Seq<char>
    decreases s.len(),
{
    if s.len() == 0 {
        Seq::empty()
    } else {
        xml_escape(s.drop_last()) + escape_char(s.last())
    }
}

/// Escaped text content holds no markup: no `<` and no `>`, so whatever a
/// value holds, it cannot open or close an element.
pub proof fn lemma_escaped_text_has_no_tags(s: Seq<char>)
    ensures
        forall|i: int|
            0 <= i < xml_escape(s).len() ==> #[trigger] xml_escape(s)[i] != '<' && xml_escape(s)[i]
                != '>',
    decreases s.len(),
{
    if s.len() > 0 {
        lemma_escaped_text_has_no_tags(s.drop_last());
        reveal_strlit("&lt;");
        reveal_strlit("&gt;");
        reveal_strlit("&amp;");
        reveal_strlit("&apos;");
        reveal_strlit("&quot;");
        reveal_strlit("&#13;");
        let prefix = xml_escape(s.drop_last());
        let tail = escape_char(s.last());
        assert forall|i: int| 0 <= i < xml_escape(s).len() implies #[trigger] xml_escape(s)[i]
            != '<' && xml_escape(s)[i] != '>' by {
            if i >= prefix.len() {
                assert(xml_escape(s)[i] == tail[i - prefix.len()]);
            } else {
                assert(xml_escape(s)[i] == prefix[i]);
            }
        }
    }
}

/// The replacement text that quick_xml writes for a character of an
/// attribute value.
pub open spec fn escape_attribute_char(c: char) -> Seq<char> {
    if c == '\n' {
        "&#10;"@
    } else if c == '\t' {
        "&#9;"@
    } else {
        escape_char(c)
    }
}

/// An attribute value with the XML special characters escaped.
pub open spec fn xml_escape_attribute(s: Seq<char>) -> Seq<char>
    decreases s.len(),
{
    if s.len() == 0 {
        Seq::empty()
    } else {
        xml_escape_attribute(s.drop_last()) + escape_attribute_char(s.last())
    }
}

/// The text of a start tag.
pub open spec fn start_tag(name: Seq<char>) -> Seq<char> {
    "<"@ + name + ">"@
}

/// The text of a start tag with one attribute.
pub open spec fn start_tag_with_attribute(name: Seq<char>, key: Seq<char>, value: Seq<char>) -> Seq<
    char,
> {
    "<"@ + name + " "@ + key + "=\""@ + xml_escape_attribute(value) + "\">"@
}

/// The text of an end tag.
pub open spec fn end_tag(name: Seq<char>) -> Seq<char> {
    "</"@ + name + ">"@
}

/// The UTF-8 encoding of two strings one after the other is the encoding of
/// the first followed by that of the second.
pub proof fn lemma_encode_utf8_concat(a: Seq<char>, b: Seq<char>)
    ensures
        encode_utf8(a + b) == encode_utf8(a) + encode_utf8(b),
    decreases a.len(),
{
    if a.len() == 0 {
        assert(a + b =~= b);
        assert(encode_utf8(a) =~= Seq::<u8>::empty());
        assert(encode_utf8(a) + encode_utf8(b) =~= encode_utf8(b));
    } else {
        lemma_encode_utf8_concat(a.drop_first(), b);
        assert((a + b).drop_first() =~= a.drop_first() + b);
        assert((a + b)[0] == a[0]);
        assert(encode_utf8(a + b) =~= encode_utf8(a) + encode_utf8(b));
    }
}

/// Writes a start tag with `quick_xml::Writer::write_event` and
/// `Event::Start`.
///
/// On success the buffer is extended by `<name>`, as quick_xml's writer
/// does for a start event without attributes and without indentation.
///
/// The writer's only source of failure is the buffer it writes into, and
/// writing into a `Vec<u8>` appends to it, growing it as needed, so the
/// write succeeds.
#[verifier::external_body]
pub(crate) fn write_start_tag(out: &mut Vec<u8>, name: &str) -> (r: Result<(), std::io::Error>)
    ensures
        r is Ok,
        r is Ok ==> final(out)@ == old(out)@ + encode_utf8(start_tag(name@)),
{
    quick_xml::Writer::new(out).write_event(Event::Start(BytesStart::new(name)))
}

/// Writes a start tag with one attribute, pushed with
/// `BytesStart::push_attribute`, through `quick_xml::Writer::write_event`.
///
/// On success the buffer is extended by `<name key="value">`, the value
/// escaped as quick_xml escapes attribute values.
///
/// The writer's only source of failure is the buffer it writes into, and
/// writing into a `Vec<u8>` appends to it, growing it as needed, so the
/// write succeeds.
#[verifier::external_body]
pub(crate) fn write_start_tag_with_attribute(out: &mut Vec<u8>, name: &str, key: &str, value: &str) -> (r:
    Result<(), std::io::Error>)
    ensures
        r is Ok,
        r is Ok ==> final(out)@ == old(out)@ + encode_utf8(
            start_tag_with_attribute(name@, key@, value@),
        ),
{
    let mut start = BytesStart::new(name);
    start.push_attribute((key, value));
    quick_xml::Writer::new(out).write_event(Event::Start(start))
}

/// Writes an end tag with `quick_xml::Writer::write_event` and
/// `Event::End`.
///
/// On success the buffer is extended by `</name>`.
///
/// The writer's only source of failure is the buffer it writes into, and
/// writing into a `Vec<u8>` appends to it, growing it as needed, so the
/// write succeeds.
#[verifier::external_body]
pub(crate) fn write_end_tag(out: &mut Vec<u8>, name: &str) -> (r: Result<(), std::io::Error>)
    ensures
        r is Ok,
        r is Ok ==> final(out)@ == old(out)@ + encode_utf8(end_tag(name@)),
{
    quick_xml::Writer::new(out).write_event(Event::End(BytesEnd::new(name)))
}

/// Writes text content with `quick_xml::Writer::write_event` and
/// `Event::Text(BytesText::new(..))`.
///
/// On success the buffer is extended by the text with `<`, `>`, `&`, `'`,
/// `"` and carriage returns escaped, as `BytesText::new` escapes them.
///
/// The writer's only source of failure is the buffer it writes into, and
/// writing into a `Vec<u8>` appends to it, growing it as needed, so the
/// write succeeds.
#[verifier::external_body]
pub(crate) fn write_text(out: &mut Vec<u8>, text: &str) -> (r: Result<(), std::io::Error>)
    ensures
        r is Ok,
        r is Ok ==> final(out)@ == old(out)@ + encode_utf8(xml_escape(text@)),
{
    quick_xml::Writer::new(out).write_event(Event::Text(BytesText::new(text)))
}

} // verus!
