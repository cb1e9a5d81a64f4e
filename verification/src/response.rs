//! Reading the XML bodies of service responses: upload ids, object listings
//! and error documents.

use vstd::prelude::*;
use vstd::string::StringExecFns;
use crate::error::{OssApiError, OssError};
use crate::text::{chars_eq, chars_of, extend_chars, extend_str, string_of, trim, trim_chars};
use crate::xml::{event_text, local_part, local_part_chars, tag_name, tag_name_chars, text_content, tokens_of, xml_events, xml_tokens, XmlEvent, XmlToken};

verus! {

/// Reader state while looking for `<UploadId>`: inside the element, text
/// gathered (with references decoded and CDATA included), and the id found
/// so far.
pub open spec fn upload_id_run(ts: Seq<XmlToken>, inside: bool, buf: Seq<char>, id: Seq<char>) -> Result<Seq<char>, Seq<char>>
    decreases ts.len(),
{
    if ts.len() == 0 {
        Ok(id)
    } else {
        let rest = ts.drop_first();
        match ts[0] {
            XmlToken::Eof => Ok(id),
            XmlToken::Error(m) => Err(m),
            XmlToken::Start(content) => if tag_name(content) == "UploadId"@ {
                upload_id_run(rest, true, Seq::empty(), id)
            } else {
                upload_id_run(rest, inside, buf, id)
            },
            XmlToken::End(name) => if name == "UploadId"@ {
                upload_id_run(rest, false, buf, trim(buf))
            } else {
                upload_id_run(rest, inside, buf, id)
            },
            _ => match text_content(ts[0]) {
                Some(t) => if inside {
                    upload_id_run(rest, inside, buf + t, id)
                } else {
                    upload_id_run(rest, inside, buf, id)
                },
                None => upload_id_run(rest, inside, buf, id),
            },
        }
    }
}

/// What reading an upload id gives: the trimmed text of the last
/// `<UploadId>` element; an XML error (with this message) when the reader
/// fails or no id is found.
pub open spec fn upload_id_outcome(ts: Seq<XmlToken>) -> Result<Seq<char>, Seq<char>> {
    match upload_id_run(ts, false, Seq::empty(), Seq::empty()) {
        Err(m) => Err("解析 XML 失败: "@ + m),
        Ok(id) => if id.len() == 0 {
            Err("响应中未找到 UploadId"@)
        } else {
            Ok(id)
        },
    }
}

proof fn lemma_skip_step<A>(s: Seq<A>, i: int)
    requires
        0 <= i < s.len(),
    ensures
        s.skip(i)[0] == s[i],
        s.skip(i).drop_first() == s.skip(i + 1),
{
    assert(s.skip(i).drop_first() =~= s.skip(i + 1));
}

/// Reads the upload id from the events of an `InitiateMultipartUpload`
/// response.
pub fn parse_upload_id_events(events: &[XmlEvent]) -> (r: Result<String, OssError>)
    ensures
        match (r, upload_id_outcome(tokens_of(events@))) {
            (Ok(id), Ok(s)) => id@ == s,
            (Err(e), Err(m)) => e matches OssError::XmlParse(s) && s@ == m,
            _ => false,
        },
{
    let ghost ts = tokens_of(events@);
    let target = chars_of("UploadId");
    let mut inside = false;
    let mut buf: Vec<char> = Vec::new();
    let mut id: Vec<char> = Vec::new();
    let mut i: usize = 0;
    assert(ts.skip(0) =~= ts);
    while i < events.len()
        invariant
            i <= events.len(),
            ts == tokens_of(events@),
            target@ == "UploadId"@,
            upload_id_run(ts, false, Seq::empty(), Seq::empty()) == upload_id_run(ts.skip(i as int), inside, buf@, id@),
        decreases events.len() - i,
    {
        proof {
            lemma_skip_step(ts, i as int);
        }
        match &events[i] {
            XmlEvent::Eof => {
                return upload_id_result(&id);
            },
            XmlEvent::Error(m) => {
                let mut msg = chars_of("解析 XML 失败: ");
                extend_str(&mut msg, m.as_str());
                return Err(OssError::XmlParse(string_of(&msg)));
            },
            XmlEvent::Start(content) => {
                let nc = tag_name_chars(&chars_of(content.as_str()));
                if chars_eq(&nc, &target) {
                    inside = true;
                    buf = Vec::new();
                }
            },
            XmlEvent::End(name) => {
                let nc = chars_of(name.as_str());
                if chars_eq(&nc, &target) {
                    id = trim_chars(&buf);
                    inside = false;
                }
            },
            _ => {
                match event_text(&events[i]) {
                    Some(t) => {
                        if inside {
                            extend_chars(&mut buf, &t);
                        }
                    },
                    None => {},
                }
            },
        }
        i = i + 1;
    }
    assert(ts.skip(i as int).len() == 0);
    upload_id_result(&id)
}

fn upload_id_result(id: &Vec<char>) -> (r: Result<String, OssError>)
    ensures
        match r {
            Ok(s) => id@.len() > 0 && s@ == id@,
            Err(e) => id@.len() == 0 && (e matches OssError::XmlParse(s) && s@ == "响应中未找到 UploadId"@),
        },
{
    if id.len() == 0 {
        Err(OssError::XmlParse(String::from_str("响应中未找到 UploadId")))
    } else {
        Ok(string_of(id))
    }
}

/// Reads the upload id from an `InitiateMultipartUpload` response body.
pub fn parse_upload_id(xml: &str) -> (r: Result<String, OssError>)
    ensures
        match (r, upload_id_outcome(xml_tokens(xml@))) {
            (Ok(id), Ok(s)) => id@ == s,
            (Err(e), Err(m)) => e matches OssError::XmlParse(s) && s@ == m,
            _ => false,
        },
{
    let events = xml_events(xml);
    parse_upload_id_events(&events)
}

} // verus!

verus! {

/// One page of an object listing.
#[derive(Clone, Debug)]
pub struct ListPage {
    pub keys: Vec<String>,
    pub is_truncated: bool,
    pub next_marker: Option<String>,
}

/// The keys of a list of strings, as character sequences.
pub open spec fn strings_view(v: Seq<String>) -> Seq<Seq<char>> {
    v.map_values(|s: String| s@)
}

/// Reading a `ListBucketResult`: the trimmed text of each `Key` element in
/// order, whether the last `IsTruncated` element reads `true`, and the last
/// `NextMarker`. `tag` is the element being read (empty when none) and `buf`
/// its text so far, with references decoded and CDATA included.
pub open spec fn list_run(
    ts: Seq<XmlToken>,
    keys: Seq<Seq<char>>,
    truncated: bool,
    marker: Option<Seq<char>>,
    tag: Seq<char>,
    buf: Seq<char>,
) -> (Seq<Seq<char>>, bool, Option<Seq<char>>)
    decreases ts.len(),
{
    if ts.len() == 0 {
        (keys, truncated, marker)
    } else {
        let rest = ts.drop_first();
        match ts[0] {
            XmlToken::Eof => (keys, truncated, marker),
            XmlToken::Error(_) => (keys, truncated, marker),
            XmlToken::Start(content) => {
                let local = local_part(tag_name(content));
                if local == "Key"@ || local == "IsTruncated"@ || local == "NextMarker"@ {
                    list_run(rest, keys, truncated, marker, local, Seq::empty())
                } else {
                    list_run(rest, keys, truncated, marker, tag, buf)
                }
            },
            XmlToken::End(name) => if tag.len() > 0 && local_part(name) == tag {
                let v = trim(buf);
                if tag == "Key"@ {
                    list_run(rest, keys.push(v), truncated, marker, Seq::empty(), Seq::empty())
                } else if tag == "IsTruncated"@ {
                    list_run(rest, keys, v == "true"@, marker, Seq::empty(), Seq::empty())
                } else if tag == "NextMarker"@ {
                    list_run(rest, keys, truncated, Some(v), Seq::empty(), Seq::empty())
                } else {
                    list_run(rest, keys, truncated, marker, Seq::empty(), Seq::empty())
                }
            } else {
                list_run(rest, keys, truncated, marker, tag, buf)
            },
            _ => match text_content(ts[0]) {
                Some(t) => if tag.len() > 0 {
                    list_run(rest, keys, truncated, marker, tag, buf + t)
                } else {
                    list_run(rest, keys, truncated, marker, tag, buf)
                },
                None => list_run(rest, keys, truncated, marker, tag, buf),
            },
        }
    }
}

/// The listing read from a sequence of events.
pub open spec fn list_outcome(ts: Seq<XmlToken>) -> (Seq<Seq<char>>, bool, Option<Seq<char>>) {
    list_run(ts, Seq::empty(), false, None, Seq::empty(), Seq::empty())
}

/// The view of a page as the triple of `list_outcome`.
pub open spec fn page_view(p: ListPage) -> (Seq<Seq<char>>, bool, Option<Seq<char>>) {
    (
        strings_view(p.keys@),
        p.is_truncated,
        match p.next_marker {
            Some(m) => Some(m@),
            None => None,
        },
    )
}

/// Reads one listing page from the events of a `ListBucketResult` body.
/// Reading stops silently at the first error.
pub fn parse_list_events(events: &[XmlEvent]) -> (r: ListPage)
    ensures
        page_view(r) == list_outcome(tokens_of(events@)),
{
    let ghost ts = tokens_of(events@);
    let key = chars_of("Key");
    let trunc = chars_of("IsTruncated");
    let next = chars_of("NextMarker");
    let truth = chars_of("true");
    let mut keys: Vec<String> = Vec::new();
    let mut is_truncated = false;
    let mut next_marker: Option<String> = None;
    let mut tag: Vec<char> = Vec::new();
    let mut buf: Vec<char> = Vec::new();
    let mut i: usize = 0;
    assert(ts.skip(0) =~= ts);
    assert(strings_view(keys@) =~= Seq::<Seq<char>>::empty());
    while i < events.len()
        invariant
            i <= events.len(),
            ts == tokens_of(events@),
            key@ == "Key"@,
            trunc@ == "IsTruncated"@,
            next@ == "NextMarker"@,
            truth@ == "true"@,
            list_outcome(ts) == list_run(
                ts.skip(i as int),
                strings_view(keys@),
                is_truncated,
                match next_marker {
                    Some(m) => Some(m@),
                    None => None,
                },
                tag@,
                buf@,
            ),
        decreases events.len() - i,
    {
        proof {
            lemma_skip_step(ts, i as int);
        }
        match &events[i] {
            XmlEvent::Eof => {
                return ListPage { keys, is_truncated, next_marker };
            },
            XmlEvent::Error(_) => {
                return ListPage { keys, is_truncated, next_marker };
            },
            XmlEvent::Start(content) => {
                let lc = local_part_chars(&tag_name_chars(&chars_of(content.as_str())));
                if chars_eq(&lc, &key) || chars_eq(&lc, &trunc) || chars_eq(&lc, &next) {
                    tag = lc;
                    buf = Vec::new();
                }
            },
            XmlEvent::End(name) => {
                let lc = local_part_chars(&chars_of(name.as_str()));
                if tag.len() > 0 && chars_eq(&lc, &tag) {
                    let v = trim_chars(&buf);
                    if chars_eq(&tag, &key) {
                        let ghost before = strings_view(keys@);
                        keys.push(string_of(&v));
                        assert(strings_view(keys@) =~= before.push(v@));
                    } else if chars_eq(&tag, &trunc) {
                        is_truncated = chars_eq(&v, &truth);
                    } else if chars_eq(&tag, &next) {
                        next_marker = Some(string_of(&v));
                    }
                    tag = Vec::new();
                    buf = Vec::new();
                }
            },
            _ => {
                match event_text(&events[i]) {
                    Some(t) => {
                        if tag.len() > 0 {
                            extend_chars(&mut buf, &t);
                        }
                    },
                    None => {},
                }
            },
        }
        i = i + 1;
    }
    assert(ts.skip(i as int).len() == 0);
    ListPage { keys, is_truncated, next_marker }
}

/// Reads one listing page from a `ListBucketResult` body.
pub fn parse_list_response(xml: &str) -> (r: ListPage)
    ensures
        page_view(r) == list_outcome(xml_tokens(xml@)),
{
    let events = xml_events(xml);
    parse_list_events(&events)
}

} // verus!

verus! {

/// The fields of an error document: code, message, request id, host id, EC
/// and recommended documentation.
pub type ApiErrorFields = (Seq<char>, Seq<char>, Seq<char>, Seq<char>, Seq<char>, Seq<char>);

/// The fields of an `OssApiError`.
pub open spec fn api_error_fields(e: OssApiError) -> ApiErrorFields {
    (e.code@, e.message@, e.request_id@, e.host_id@, e.ec@, e.recommend_doc@)
}

/// The field of an error document that an element fills, by the element's
/// name; empty for any other element.
pub open spec fn field_named(f: ApiErrorFields, tag: Seq<char>) -> Seq<char> {
    if tag == "Code"@ {
        f.0
    } else if tag == "Message"@ {
        f.1
    } else if tag == "RequestId"@ {
        f.2
    } else if tag == "HostId"@ {
        f.3
    } else if tag == "EC"@ {
        f.4
    } else if tag == "RecommendDoc"@ {
        f.5
    } else {
        Seq::empty()
    }
}

/// `f` with the field that element `tag` fills set to `v` (unchanged for
/// any other element).
pub open spec fn with_field(f: ApiErrorFields, tag: Seq<char>, v: Seq<char>) -> ApiErrorFields {
    if tag == "Code"@ {
        (v, f.1, f.2, f.3, f.4, f.5)
    } else if tag == "Message"@ {
        (f.0, v, f.2, f.3, f.4, f.5)
    } else if tag == "RequestId"@ {
        (f.0, f.1, v, f.3, f.4, f.5)
    } else if tag == "HostId"@ {
        (f.0, f.1, f.2, v, f.4, f.5)
    } else if tag == "EC"@ {
        (f.0, f.1, f.2, f.3, v, f.5)
    } else if tag == "RecommendDoc"@ {
        (f.0, f.1, f.2, f.3, f.4, v)
    } else {
        f
    }
}

/// Reading an error document: a field holds the character text of the last
/// element of its name (text as it stands, CDATA, and decoded references);
/// text after an end tag and before the next start tag belongs to no field;
/// reading stops at `</Error>`, at the end, or at an error.
pub open spec fn api_error_run(ts: Seq<XmlToken>, f: ApiErrorFields, tag: Seq<char>) -> ApiErrorFields
    decreases ts.len(),
{
    if ts.len() == 0 {
        f
    } else {
        let rest = ts.drop_first();
        match ts[0] {
            XmlToken::Eof => f,
            XmlToken::Error(_) => f,
            XmlToken::End(name) => if name == "Error"@ {
                f
            } else {
                api_error_run(rest, f, Seq::empty())
            },
            XmlToken::Start(content) => {
                let local = local_part(tag_name(content));
                api_error_run(rest, with_field(f, local, Seq::empty()), local)
            },
            _ => match text_content(ts[0]) {
                Some(t) => api_error_run(rest, with_field(f, tag, field_named(f, tag) + t), tag),
                None => api_error_run(rest, f, tag),
            },
        }
    }
}

/// The error read from a sequence of events, starting from all fields empty.
pub open spec fn api_error_outcome(ts: Seq<XmlToken>) -> ApiErrorFields {
    api_error_run(ts, (Seq::empty(), Seq::empty(), Seq::empty(), Seq::empty(), Seq::empty(), Seq::empty()), Seq::empty())
}

impl OssApiError {
    /// Reads an error document from its events.
    pub fn from_xml_events(events: &[XmlEvent]) -> (r: Self)
        ensures
            api_error_fields(r) == api_error_outcome(tokens_of(events@)),
    {
        let ghost ts = tokens_of(events@);
        let error = chars_of("Error");
        let mut result = OssApiError::empty();
        let mut tag: Vec<char> = Vec::new();
        let mut i: usize = 0;
        assert(ts.skip(0) =~= ts);
        while i < events.len()
            invariant
                i <= events.len(),
                ts == tokens_of(events@),
                error@ == "Error"@,
                api_error_outcome(ts) == api_error_run(ts.skip(i as int), api_error_fields(result), tag@),
            decreases events.len() - i,
        {
            proof {
                lemma_skip_step(ts, i as int);
            }
            match &events[i] {
                XmlEvent::Eof => {
                    return result;
                },
                XmlEvent::Error(_) => {
                    return result;
                },
                XmlEvent::End(name) => {
                    let nc = chars_of(name.as_str());
                    if chars_eq(&nc, &error) {
                        return result;
                    }
                    tag = Vec::new();
                },
                XmlEvent::Start(content) => {
                    tag = local_part_chars(&tag_name_chars(&chars_of(content.as_str())));
                    result.set_field(&tag, String::new());
                },
                _ => {
                    match event_text(&events[i]) {
                        Some(t) => {
                            let mut v = result.field_chars(&tag);
                            extend_chars(&mut v, &t);
                            result.set_field(&tag, string_of(&v));
                        },
                        None => {},
                    }
                },
            }
            i = i + 1;
        }
        assert(ts.skip(i as int).len() == 0);
        result
    }

    /// The text of the field that element `tag` fills (empty for others).
    fn field_chars(&self, tag: &Vec<char>) -> (r: Vec<char>)
        ensures
            r@ == field_named(api_error_fields(*self), tag@),
    {
        if chars_eq(tag, &chars_of("Code")) {
            chars_of(self.code.as_str())
        } else if chars_eq(tag, &chars_of("Message")) {
            chars_of(self.message.as_str())
        } else if chars_eq(tag, &chars_of("RequestId")) {
            chars_of(self.request_id.as_str())
        } else if chars_eq(tag, &chars_of("HostId")) {
            chars_of(self.host_id.as_str())
        } else if chars_eq(tag, &chars_of("EC")) {
            chars_of(self.ec.as_str())
        } else if chars_eq(tag, &chars_of("RecommendDoc")) {
            chars_of(self.recommend_doc.as_str())
        } else {
            Vec::new()
        }
    }

    /// Sets the field that element `tag` fills (nothing for others).
    fn set_field(&mut self, tag: &Vec<char>, v: String)
        ensures
            api_error_fields(*final(self)) == with_field(api_error_fields(*old(self)), tag@, v@),
    {
        if chars_eq(tag, &chars_of("Code")) {
            self.code = v;
        } else if chars_eq(tag, &chars_of("Message")) {
            self.message = v;
        } else if chars_eq(tag, &chars_of("RequestId")) {
            self.request_id = v;
        } else if chars_eq(tag, &chars_of("HostId")) {
            self.host_id = v;
        } else if chars_eq(tag, &chars_of("EC")) {
            self.ec = v;
        } else if chars_eq(tag, &chars_of("RecommendDoc")) {
            self.recommend_doc = v;
        }
    }

    /// Reads an error document such as
    /// `<Error><Code>..</Code><Message>..</Message><RequestId>..</RequestId>..</Error>`.
    pub fn from_xml(xml_content: &str) -> (r: Self)
        ensures
            api_error_fields(r) == api_error_outcome(xml_tokens(xml_content@)),
    {
        let events = xml_events(xml_content);
        Self::from_xml_events(&events)
    }
}

} // verus!
