//! The events of an XML document as `quick-xml` reads them.

use vstd::prelude::*;
use quick_xml::events::Event::{CData, Comment, Decl, DocType, Empty, End, Eof, GeneralRef, Start, Text, PI};
use crate::text::{chars_of, extend_chars, extend_str, find_char, first_index_of, slice_chars, str_eq};

verus! {

/// One event of the XML reader, with names and text as strings.
#[derive(Clone, Debug)]
pub enum XmlEvent {
    /// Start tag, with its content: the qualified name, then any attributes.
    Start(String),
    /// End tag, with its qualified name.
    End(String),
    /// Empty-element tag (`<a/>`), with its content as for a start tag.
    Empty(String),
    /// Character data between tags, as written in the document (the reader
    /// cuts text at every `&`, so it holds no reference).
    Text(String),
    /// The content of a `<![CDATA[..]]>` section.
    CData(String),
    /// The content of a comment.
    Comment(String),
    /// The content of the XML declaration.
    Decl(String),
    /// The content of a processing instruction.
    PI(String),
    /// The content of a document type declaration.
    DocType(String),
    /// A reference `&name;`, holding the name between `&` and `;`.
    GeneralRef(String),
    /// End of the document.
    Eof,
    /// The reader failed; the text of its error.
    Error(String),
}

/// The view of an `XmlEvent`.
pub enum XmlToken {
    Start(Seq<char>),
    End(Seq<char>),
    Empty(Seq<char>),
    Text(Seq<char>),
    CData(Seq<char>),
    Comment(Seq<char>),
    Decl(Seq<char>),
    PI(Seq<char>),
    DocType(Seq<char>),
    GeneralRef(Seq<char>),
    Eof,
    Error(Seq<char>),
}

impl View for XmlEvent {
    type V = XmlToken;

    open spec fn view(&self) -> XmlToken {
        match self {
            XmlEvent::Start(n) => XmlToken::Start(n@),
            XmlEvent::End(n) => XmlToken::End(n@),
            XmlEvent::Empty(n) => XmlToken::Empty(n@),
            XmlEvent::Text(t) => XmlToken::Text(t@),
            XmlEvent::CData(t) => XmlToken::CData(t@),
            XmlEvent::Comment(t) => XmlToken::Comment(t@),
            XmlEvent::Decl(t) => XmlToken::Decl(t@),
            XmlEvent::PI(t) => XmlToken::PI(t@),
            XmlEvent::DocType(t) => XmlToken::DocType(t@),
            XmlEvent::GeneralRef(t) => XmlToken::GeneralRef(t@),
            XmlEvent::Eof => XmlToken::Eof,
            XmlEvent::Error(m) => XmlToken::Error(m@),
        }
    }
}

/// The views of a list of events.
pub open spec fn tokens_of(v: Seq<XmlEvent>) -> Seq<XmlToken> {
    v.map_values(|e: XmlEvent| e@)
}

/// An event after which the reader is not asked again.
pub open spec fn is_terminal(t: XmlToken) -> bool {
    t is Eof || t is Error
}

/// A finite run of events whose last event, and only that one, is terminal.
pub open spec fn well_terminated(ts: Seq<XmlToken>) -> bool {
    &&& ts.len() > 0
    &&& is_terminal(ts.last())
    &&& forall|i: int| 0 <= i < ts.len() - 1 ==> !is_terminal(#[trigger] ts[i])
}

#[verifier::external_type_specification]
#[verifier::external_body]
#[verifier::reject_recursive_types(R)]
pub struct ExXmlReader<R>(quick_xml::Reader<R>);

/// The events `quick-xml` reads from a document, up to and including the
/// first end-of-document or error.
pub uninterp spec fn xml_tokens(xml: Seq<char>) -> Seq<XmlToken>;

/// The events a reader has still to deliver, up to and including the first
/// end-of-document or error.
pub uninterp spec fn pending_tokens(reader: quick_xml::Reader<&[u8]>) -> Seq<XmlToken>;

/// A reader over a document (`quick_xml::Reader::from_str`).
/// Trusted: the reader will deliver exactly `xml_tokens(xml)`, a finite run
/// that ends with its first end-of-document or error.
#[verifier::external_body]
fn open_reader<'a>(xml: &'a str) -> (r: quick_xml::Reader<&'a [u8]>)
    ensures
        pending_tokens(r) == xml_tokens(xml@),
        well_terminated(pending_tokens(r)),
{
    quick_xml::Reader::from_str(xml)
}

/// The next event of a reader (`quick_xml::Reader::read_event`): one event
/// of ours for each of the reader's, with the event's content (what the
/// event dereferences to: the text of a tag between its brackets, the name
/// of a reference, ...) copied into a string, and the error turned into its
/// message.
/// Trusted: the event is the first pending one, and when it is neither the
/// end of the document nor an error, it is consumed. Nothing is said of the
/// reader after a terminal event: at the end it keeps returning `Eof`, and
/// after some errors it goes on reading, so it is not asked again.
#[verifier::external_body]
fn next_event(reader: &mut quick_xml::Reader<&[u8]>) -> (e: XmlEvent)
    requires
        pending_tokens(*old(reader)).len() > 0,
    ensures
        e@ == pending_tokens(*old(reader))[0],
        !is_terminal(e@) ==> pending_tokens(*final(reader)) == pending_tokens(*old(reader)).drop_first(),
{
    let ev = match reader.read_event() { Ok(v) => v, Err(e) => return XmlEvent::Error(e.to_string()) };
    let c = String::from_utf8_lossy(&ev).into_owned();
    match ev {
        Start(_) => XmlEvent::Start(c),
        Empty(_) => XmlEvent::Empty(c),
        End(_) => XmlEvent::End(c),
        Text(_) => XmlEvent::Text(c),
        CData(_) => XmlEvent::CData(c),
        Comment(_) => XmlEvent::Comment(c),
        Decl(_) => XmlEvent::Decl(c),
        PI(_) => XmlEvent::PI(c),
        DocType(_) => XmlEvent::DocType(c),
        GeneralRef(_) => XmlEvent::GeneralRef(c),
        Eof => XmlEvent::Eof,
    }
}

/// All events of a document, up to and including the first end-of-document
/// or error.
pub fn xml_events(xml: &str) -> (r: Vec<XmlEvent>)
    ensures
        tokens_of(r@) == xml_tokens(xml@),
{
    let mut reader = open_reader(xml);
    let mut out: Vec<XmlEvent> = Vec::new();
    loop
        invariant
            tokens_of(out@) + pending_tokens(reader) == xml_tokens(xml@),
            well_terminated(pending_tokens(reader)),
        decreases pending_tokens(reader).len(),
    {
        let ghost pend = pending_tokens(reader);
        let e = next_event(&mut reader);
        let terminal = matches!(e, XmlEvent::Eof | XmlEvent::Error(_));
        let ghost before = tokens_of(out@);
        out.push(e);
        assert(tokens_of(out@) =~= before.push(pend[0]));
        assert(pend =~= seq![pend[0]] + pend.drop_first());
        if terminal {
            assert(pend.len() == 1) by {
                if pend.len() > 1 {
                    assert(!is_terminal(pend[0]));
                }
            }
            assert(tokens_of(out@) =~= xml_tokens(xml@));
            return out;
        }
        assert(well_terminated(pend.drop_first())) by {
            assert(pend.len() > 1);
            assert forall|i: int| 0 <= i < pend.drop_first().len() - 1 implies !is_terminal(
                #[trigger] pend.drop_first()[i],
            ) by {
                assert(pend.drop_first()[i] == pend[i + 1]);
            }
        }
    }
}

} // verus!

verus! {

/// The value of `c` as a digit in base 10 or 16 (either letter case).
pub open spec fn digit_value(c: char, hex: bool) -> Option<nat> {
    if '0' <= c && c <= '9' {
        Some((c as nat - 48) as nat)
    } else if hex && 'a' <= c && c <= 'f' {
        Some((c as nat - 87) as nat)
    } else if hex && 'A' <= c && c <= 'F' {
        Some((c as nat - 55) as nat)
    } else {
        None
    }
}

/// Every character of `s` is a digit.
pub open spec fn all_digits(s: Seq<char>, hex: bool) -> bool {
    forall|i: int| 0 <= i < s.len() ==> (#[trigger] digit_value(s[i], hex)) is Some
}

/// The number written by the digits `s` (most significant first).
pub open spec fn digits_number(s: Seq<char>, hex: bool) -> nat
    decreases s.len(),
{
    if s.len() == 0 {
        0
    } else {
        let d = match digit_value(s.last(), hex) {
            Some(v) => v,
            None => 0,
        };
        digits_number(s.drop_last(), hex) * (if hex { 16nat } else { 10nat }) + d
    }
}

/// A code point that names a character: not zero, not a surrogate, at most
/// `0x10FFFF`.
pub open spec fn is_char_code(n: nat) -> bool {
    0 < n <= 0x10FFFF && !(0xD800 <= n <= 0xDFFF)
}

/// The code point named by a character reference `#N` (decimal) or `#xN`
/// (hexadecimal), if it is one and names a character.
pub open spec fn char_reference(name: Seq<char>) -> Option<nat> {
    let hex = name.len() >= 2 && name[0] == '#' && name[1] == 'x';
    let digits = if hex { name.skip(2) } else { name.skip(1) };
    if name.len() >= 1 && name[0] == '#' && digits.len() > 0 && all_digits(digits, hex)
        && is_char_code(digits_number(digits, hex)) {
        Some(digits_number(digits, hex))
    } else {
        None
    }
}

/// The text a reference `&name;` stands for: the five predefined entities,
/// character references, and any other reference kept as written.
pub open spec fn decode_reference(name: Seq<char>) -> Seq<char> {
    if name == "amp"@ {
        "&"@
    } else if name == "lt"@ {
        "<"@
    } else if name == "gt"@ {
        ">"@
    } else if name == "quot"@ {
        "\""@
    } else if name == "apos"@ {
        "'"@
    } else {
        match char_reference(name) {
            Some(n) => seq![n as char],
            None => "&"@ + name + ";"@,
        }
    }
}

/// The character text an event contributes to the element it is in: text
/// as it stands, CDATA content, and decoded references; nothing for tags,
/// comments, declarations, instructions or the end.
pub open spec fn text_content(t: XmlToken) -> Option<Seq<char>> {
    match t {
        XmlToken::Text(s) => Some(s),
        XmlToken::CData(s) => Some(s),
        XmlToken::GeneralRef(n) => Some(decode_reference(n)),
        _ => None,
    }
}

/// The character with code `n` (`char::from_u32`).
/// Trusted: `Some` of the character whose code is `n` exactly when `n` is
/// at most `0x10FFFF` and not a surrogate, else `None`.
#[verifier::external_body]
fn char_from_u32(n: u32) -> (r: Option<char>)
    ensures
        (n <= 0x10FFFF && !(0xD800 <= n <= 0xDFFF)) ==> r == Some(n as char),
        !(n <= 0x10FFFF && !(0xD800 <= n <= 0xDFFF)) ==> r is None,
{
    char::from_u32(n)
}

proof fn lemma_digits_push(s: Seq<char>, c: char, hex: bool)
    ensures
        digits_number(s.push(c), hex) == digits_number(s, hex) * (if hex { 16nat } else { 10nat }) + match digit_value(c, hex) {
            Some(v) => v,
            None => 0,
        },
{
    assert(s.push(c).drop_last() =~= s);
}

/// The code point of a character reference (see `char_reference`).
fn char_reference_exec(name: &Vec<char>) -> (r: Option<u32>)
    ensures
        match (r, char_reference(name@)) {
            (Some(v), Some(n)) => v == n,
            (None, None) => true,
            _ => false,
        },
{
    if name.len() == 0 || name[0] != '#' {
        return None;
    }
    let hex = name.len() >= 2 && name[1] == 'x';
    let start: usize = if hex { 2 } else { 1 };
    if name.len() <= start {
        return None;
    }
    let ghost digits = name@.skip(start as int);
    let mut v: u32 = 0;
    let mut over = false;
    let mut i: usize = start;
    while i < name.len()
        invariant
            start <= i <= name.len(),
            name@.len() >= 1 && name@[0] == '#',
            hex == (name@.len() >= 2 && name@[1] == 'x'),
            start == if hex { 2usize } else { 1usize },
            digits == name@.skip(start as int),
            all_digits(name@.subrange(start as int, i as int), hex),
            !over ==> v == digits_number(name@.subrange(start as int, i as int), hex) && v <= 0x10FFFF,
            over ==> digits_number(name@.subrange(start as int, i as int), hex) > 0x10FFFF,
        decreases name.len() - i,
    {
        let c = name[i];
        let d: u32 = if '0' <= c && c <= '9' {
            (c as u32) - 48
        } else if hex && 'a' <= c && c <= 'f' {
            (c as u32) - 87
        } else if hex && 'A' <= c && c <= 'F' {
            (c as u32) - 55
        } else {
            assert(!all_digits(digits, hex)) by {
                assert(digits[i - start] == c);
                assert(digit_value(digits[i - start], hex) is None);
            }
            return None;
        };
        proof {
            assert(name@.subrange(start as int, i + 1) =~= name@.subrange(start as int, i as int).push(c));
            lemma_digits_push(name@.subrange(start as int, i as int), c, hex);
        }
        if !over {
            let nv: u32 = if hex { v * 16 + d } else { v * 10 + d };
            if nv > 0x10FFFF {
                over = true;
            } else {
                v = nv;
            }
        }
        i = i + 1;
    }
    assert(name@.subrange(start as int, name.len() as int) =~= digits);
    if over || v == 0 || (0xD800 <= v && v <= 0xDFFF) {
        None
    } else {
        Some(v)
    }
}

/// The text of a reference (see `decode_reference`).
pub fn decode_reference_exec(name: &str) -> (r: Vec<char>)
    ensures
        r@ == decode_reference(name@),
{
    proof {
        reveal_strlit("&");
        reveal_strlit("<");
        reveal_strlit(">");
        reveal_strlit("\"");
        reveal_strlit("'");
        reveal_strlit(";");
    }
    let n = chars_of(name);
    if str_eq(name, "amp") {
        chars_of("&")
    } else if str_eq(name, "lt") {
        chars_of("<")
    } else if str_eq(name, "gt") {
        chars_of(">")
    } else if str_eq(name, "quot") {
        chars_of("\"")
    } else if str_eq(name, "apos") {
        chars_of("'")
    } else {
        match char_reference_exec(&n) {
            Some(v) => match char_from_u32(v) {
                Some(c) => {
                    let mut out: Vec<char> = Vec::new();
                    out.push(c);
                    assert(out@ =~= seq![v as char]);
                    out
                },
                None => {
                    assert(false);
                    Vec::new()
                },
            },
            None => {
                let mut out = chars_of("&");
                extend_chars(&mut out, &n);
                extend_str(&mut out, ";");
                out
            },
        }
    }
}

/// The text an event contributes (see `text_content`).
pub fn event_text(e: &XmlEvent) -> (r: Option<Vec<char>>)
    ensures
        match (r, text_content(e@)) {
            (Some(v), Some(t)) => v@ == t,
            (None, None) => true,
            _ => false,
        },
{
    match e {
        XmlEvent::Text(t) => Some(chars_of(t.as_str())),
        XmlEvent::CData(t) => Some(chars_of(t.as_str())),
        XmlEvent::GeneralRef(n) => Some(decode_reference_exec(n.as_str())),
        _ => None,
    }
}

/// The local part of a qualified name: what follows its first `:`, or the
/// whole name when it has none (`QName::local_name`).
pub open spec fn local_part(name: Seq<char>) -> Seq<char> {
    match first_index_of(name, ':') {
        Some(i) => name.skip(i + 1),
        None => name,
    }
}

/// The local part of a qualified name (see `local_part`).
pub fn local_part_chars(name: &Vec<char>) -> (r: Vec<char>)
    ensures
        r@ == local_part(name@),
{
    let s = name.as_slice();
    assert(s@ == name@);
    match find_char(s, ':') {
        Some(i) => {
            let n = s.len();
            assert(i < n);
            slice_chars(s, i + 1, n)
        },
        None => name.clone(),
    }
}

/// XML whitespace: space, tab, carriage return, line feed.
pub open spec fn is_xml_space(c: char) -> bool {
    c == ' ' || c == '\t' || c == '\r' || c == '\n'
}

/// The qualified name of a tag from its content: everything before the
/// first whitespace (`BytesStart::name`).
pub open spec fn tag_name(content: Seq<char>) -> Seq<char>
    decreases content.len(),
{
    if content.len() == 0 || is_xml_space(content[0]) {
        Seq::empty()
    } else {
        seq![content[0]] + tag_name(content.drop_first())
    }
}

/// The qualified name of a tag (see `tag_name`).
pub fn tag_name_chars(content: &Vec<char>) -> (r: Vec<char>)
    ensures
        r@ == tag_name(content@),
{
    let mut i: usize = 0;
    assert(content@.skip(0) =~= content@);
    assert(content@.take(0) =~= Seq::<char>::empty());
    while i < content.len() && !(content[i] == ' ' || content[i] == '\t' || content[i] == '\r' || content[i] == '\n')
        invariant
            i <= content.len(),
            tag_name(content@) == content@.take(i as int) + tag_name(content@.skip(i as int)),
        decreases content.len() - i,
    {
        assert(content@.skip(i as int).drop_first() =~= content@.skip(i + 1));
        assert(content@.take(i + 1) =~= content@.take(i as int) + seq![content@[i as int]]);
        i = i + 1;
    }
    assert(tag_name(content@.skip(i as int)) =~= Seq::<char>::empty()) by {
        if i < content.len() {
            assert(content@.skip(i as int)[0] == content@[i as int]);
        }
    }
    let s = content.as_slice();
    assert(s@ == content@);
    let r = slice_chars(s, 0, i);
    assert(r@ =~= content@.take(i as int));
    r
}

} // verus!
