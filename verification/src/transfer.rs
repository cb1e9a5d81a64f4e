//! Parameters, headers and bodies of upload requests, and the name under
//! which an interrupted upload is remembered.

use vstd::prelude::*;
use vstd::string::StringExecFns;
use vstd::utf8::encode_utf8;
use crate::crypto::{base64_url_no_pad, base64_url, sha1, sha1_of};
use crate::error::OssError;
use crate::query::{set_entry, HeaderList, QueryParams};
use crate::request::is_header_value;
use crate::xml::{all_digits, digit_value, digits_number};
use crate::text::{chars_of, decimal, decimal_chars, digit_char, extend_chars, extend_str, string_of, trim_end_char, trim_end_matches_char, trim_start_char, trim_start_matches_char};

verus! {

/// Message when a content type is not a valid header value.
pub open spec fn bad_content_type_message() -> Seq<char> {
    "invalid content-type: failed to parse header value"@
}

fn header_value_ok(v: &str) -> (r: bool)
    ensures
        r == is_header_value(v@),
{
    let cs = chars_of(v);
    let mut i: usize = 0;
    while i < cs.len()
        invariant
            i <= cs.len(),
            cs@ == v@,
            forall|j: int| 0 <= j < i ==> ((32 <= (#[trigger] cs@[j]) as u32 && (cs@[j] as u32) != 127) || cs@[j] as u32
                == 9),
        decreases cs.len() - i,
    {
        let u = cs[i] as u32;
        if !((32 <= u && u != 127) || u == 9) {
            return false;
        }
        i = i + 1;
    }
    true
}

/// Headers of a simple upload: `content-type` and `content-length`.
pub fn simple_upload_headers(content_type: &str, length: u64) -> (r: Result<HeaderList, OssError>)
    ensures
        match r {
            Ok(h) => is_header_value(content_type@) && h@ == set_entry(
                set_entry(Seq::empty(), "content-type"@, content_type@),
                "content-length"@,
                decimal(length as nat),
            ),
            Err(e) => !is_header_value(content_type@) && (e matches OssError::Other(m) && m@
                == bad_content_type_message()),
        },
{
    if !header_value_ok(content_type) {
        return Err(OssError::Other(String::from_str("invalid content-type: failed to parse header value")));
    }
    let mut h = HeaderList::new();
    h.insert(String::from_str("content-type"), String::from_str(content_type));
    h.insert(String::from_str("content-length"), string_of(&decimal_chars(length)));
    Ok(h)
}

/// Query and headers that start a multipart upload: the `uploads` flag and
/// the content type.
pub fn initiate_request(content_type: &str) -> (r: Result<(QueryParams, HeaderList), OssError>)
    ensures
        match r {
            Ok((q, h)) => {
                &&& is_header_value(content_type@)
                &&& q@ == set_entry(Seq::empty(), "uploads"@, Seq::empty())
                &&& h@ == set_entry(Seq::empty(), "content-type"@, content_type@)
            },
            Err(e) => !is_header_value(content_type@) && (e matches OssError::Other(m) && m@
                == bad_content_type_message()),
        },
{
    if !header_value_ok(content_type) {
        return Err(OssError::Other(String::from_str("invalid content-type: failed to parse header value")));
    }
    let mut q = QueryParams::new();
    q.insert(String::from_str("uploads"), String::new());
    let mut h = HeaderList::new();
    h.insert(String::from_str("content-type"), String::from_str(content_type));
    Ok((q, h))
}

/// Query and headers of one part: `partNumber`, `uploadId`, and the length.
pub fn part_request(part_number: u32, upload_id: &str, length: u64) -> (r: (QueryParams, HeaderList))
    ensures
        r.0@ == set_entry(set_entry(Seq::empty(), "partNumber"@, decimal(part_number as nat)), "uploadId"@, upload_id@),
        r.1@ == set_entry(Seq::empty(), "content-length"@, decimal(length as nat)),
{
    let mut q = QueryParams::new();
    q.insert(String::from_str("partNumber"), string_of(&decimal_chars(part_number as u64)));
    q.insert(String::from_str("uploadId"), String::from_str(upload_id));
    let mut h = HeaderList::new();
    h.insert(String::from_str("content-length"), string_of(&decimal_chars(length)));
    (q, h)
}

/// The query naming an upload (to complete or abort it).
pub fn upload_id_query(upload_id: &str) -> (r: QueryParams)
    ensures
        r@ == set_entry(Seq::empty(), "uploadId"@, upload_id@),
{
    let mut q = QueryParams::new();
    q.insert(String::from_str("uploadId"), String::from_str(upload_id));
    q
}

/// The ETag of an uploaded part from its `etag` header (the header's text, or
/// none when missing or not visible ASCII), without surrounding quotes; an
/// error when nothing is left.
pub open spec fn etag_outcome(header: Option<Seq<char>>) -> Result<Seq<char>, Seq<char>> {
    let raw = match header {
        Some(v) => v,
        None => Seq::empty(),
    };
    let etag = trim_end_char(trim_start_char(raw, '"'), '"');
    if etag.len() == 0 {
        Err("分片上传响应中未找到 ETag"@)
    } else {
        Ok(etag)
    }
}

/// Extracts the ETag of an uploaded part.
pub fn etag_from_header(header: Option<&str>) -> (r: Result<String, OssError>)
    ensures
        match (r, etag_outcome(
            match header {
                Some(v) => Some(v@),
                None => None,
            },
        )) {
            (Ok(e), Ok(s)) => e@ == s,
            (Err(e), Err(m)) => e matches OssError::Other(s) && s@ == m,
            _ => false,
        },
{
    let raw = match header {
        Some(v) => chars_of(v),
        None => Vec::new(),
    };
    let a = trim_start_matches_char(&raw, '"');
    let etag = trim_end_matches_char(&a, '"');
    if etag.len() == 0 {
        Err(OssError::Other(String::from_str("分片上传响应中未找到 ETag")))
    } else {
        Ok(string_of(&etag))
    }
}

/// The escape of one character for XML text.
pub open spec fn escape_char(c: char) -> Seq<char> {
    if c == '&' {
        "&amp;"@
    } else if c == '<' {
        "&lt;"@
    } else if c == '>' {
        "&gt;"@
    } else if c == '"' {
        "&quot;"@
    } else {
        seq![c]
    }
}

/// `s` with `&`, `<`, `>` and `"` replaced by their entities (the same as
/// replacing `&` first and then the other three).
pub open spec fn xml_escape(s: Seq<char>) -> Seq<char>
    decreases s.len(),
{
    if s.len() == 0 {
        Seq::empty()
    } else {
        xml_escape(s.drop_last()) + escape_char(s.last())
    }
}

/// Escapes text for use inside an XML element.
pub fn escape_xml_text(s: &str) -> (r: Vec<char>)
    ensures
        r@ == xml_escape(s@),
{
    let cs = chars_of(s);
    let mut out: Vec<char> = Vec::new();
    let mut i: usize = 0;
    while i < cs.len()
        invariant
            i <= cs.len(),
            cs@ == s@,
            out@ == xml_escape(cs@.take(i as int)),
        decreases cs.len() - i,
    {
        assert(cs@.take(i + 1).drop_last() =~= cs@.take(i as int));
        let c = cs[i];
        if c == '&' {
            extend_str(&mut out, "&amp;");
        } else if c == '<' {
            extend_str(&mut out, "&lt;");
        } else if c == '>' {
            extend_str(&mut out, "&gt;");
        } else if c == '"' {
            extend_str(&mut out, "&quot;");
        } else {
            out.push(c);
        }
        i = i + 1;
    }
    assert(cs@.take(cs.len() as int) =~= cs@);
    out
}

/// Escaped text holds no `<`, `>` or `"`, so it cannot end the element or
/// the quoted value it is placed in.
pub proof fn lemma_escape_has_no_markup(s: Seq<char>)
    ensures
        forall|i: int|
            0 <= i < xml_escape(s).len() ==> #[trigger] xml_escape(s)[i] != '<' && xml_escape(s)[i] != '>'
                && xml_escape(s)[i] != '"',
    decreases s.len(),
{
    reveal_strlit("&amp;");
    reveal_strlit("&lt;");
    reveal_strlit("&gt;");
    reveal_strlit("&quot;");
    if s.len() > 0 {
        lemma_escape_has_no_markup(s.drop_last());
        let a = xml_escape(s.drop_last());
        let b = escape_char(s.last());
        assert forall|i: int| 0 <= i < (a + b).len() implies #[trigger] (a + b)[i] != '<' && (a + b)[i] != '>'
            && (a + b)[i] != '"' by {
            if i >= a.len() {
                assert((a + b)[i] == b[i - a.len()]);
            } else {
                assert((a + b)[i] == a[i]);
            }
        }
    }
}

/// `<Part><PartNumber>{n}</PartNumber><ETag>"{etag}"</ETag></Part>` for the
/// part at position `index` (numbered from 1).
pub open spec fn part_xml(index: nat, etag: Seq<char>) -> Seq<char> {
    "<Part><PartNumber>"@ + decimal(index + 1) + "</PartNumber><ETag>\""@ + xml_escape(etag)
        + "\"</ETag></Part>"@
}

/// The part elements for a list of ETags, numbered in list order.
pub open spec fn parts_xml(etags: Seq<Seq<char>>) -> Seq<char>
    decreases etags.len(),
{
    if etags.len() == 0 {
        Seq::empty()
    } else {
        parts_xml(etags.drop_last()) + part_xml((etags.len() - 1) as nat, etags.last())
    }
}

/// The body of a `CompleteMultipartUpload` request.
pub open spec fn complete_body(etags: Seq<Seq<char>>) -> Seq<char> {
    "<?xml version=\"1.0\" encoding=\"UTF-8\"?><CompleteMultipartUpload>"@ + parts_xml(etags)
        + "</CompleteMultipartUpload>"@
}

/// Builds the body that completes a multipart upload; the ETag at position
/// `i` is sent as part `i + 1`.
pub fn complete_multipart_body(etags: &Vec<String>) -> (r: String)
    requires
        etags@.len() < usize::MAX,
    ensures
        r@ == complete_body(etags@.map_values(|e: String| e@)),
{
    let ghost ev = etags@.map_values(|e: String| e@);
    let mut parts: Vec<char> = Vec::new();
    let mut i: usize = 0;
    while i < etags.len()
        invariant
            i <= etags.len(),
            etags@.len() < usize::MAX,
            ev == etags@.map_values(|e: String| e@),
            parts@ == parts_xml(ev.take(i as int)),
        decreases etags.len() - i,
    {
        assert(ev.take(i + 1).drop_last() =~= ev.take(i as int));
        assert(ev.take(i + 1).last() == etags@[i as int]@);
        extend_str(&mut parts, "<Part><PartNumber>");
        extend_chars(&mut parts, &decimal_chars((i + 1) as u64));
        extend_str(&mut parts, "</PartNumber><ETag>\"");
        let esc = escape_xml_text(etags[i].as_str());
        extend_chars(&mut parts, &esc);
        extend_str(&mut parts, "\"</ETag></Part>");
        i = i + 1;
    }
    assert(ev.take(etags.len() as int) =~= ev);
    let mut out = chars_of("<?xml version=\"1.0\" encoding=\"UTF-8\"?><CompleteMultipartUpload>");
    extend_chars(&mut out, &parts);
    extend_str(&mut out, "</CompleteMultipartUpload>");
    string_of(&out)
}

/// Query and headers of the completing request: the upload id, the XML
/// content type and the body's length in bytes.
pub fn complete_request(upload_id: &str, body: &str) -> (r: (QueryParams, HeaderList))
    ensures
        r.0@ == set_entry(Seq::empty(), "uploadId"@, upload_id@),
        r.1@ == set_entry(
            set_entry(Seq::empty(), "content-type"@, "application/xml"@),
            "content-length"@,
            decimal(encode_utf8(body@).len()),
        ),
{
    let q = upload_id_query(upload_id);
    let mut h = HeaderList::new();
    h.insert(String::from_str("content-type"), String::from_str("application/xml"));
    let n = body.as_bytes().len();
    h.insert(String::from_str("content-length"), string_of(&decimal_chars(n as u64)));
    (q, h)
}

/// The file name of a checkpoint: the URL-safe base64 of the SHA-1 of
/// `{remote}|{local}`, then `.checkpoint`.
pub open spec fn checkpoint_name(remote_path: Seq<char>, local_path: Seq<char>) -> Seq<char> {
    base64_url(sha1_of(encode_utf8(remote_path + "|"@ + local_path))) + ".checkpoint"@
}

/// Name of the checkpoint file of an upload from `local_path` to `remote_path`.
pub fn checkpoint_file_name(remote_path: &str, local_path: &str) -> (r: String)
    ensures
        r@ == checkpoint_name(remote_path@, local_path@),
{
    let mut input = chars_of(remote_path);
    extend_str(&mut input, "|");
    extend_str(&mut input, local_path);
    let s = string_of(&input);
    let digest = sha1(s.as_str().as_bytes());
    let hash = base64_url_no_pad(digest.as_slice());
    checkpoint_name_for_hash(hash.as_str())
}

/// The checkpoint file name for an encoded digest: the digest, then `.checkpoint`.
pub fn checkpoint_name_for_hash(hash: &str) -> (r: String)
    ensures
        r@ == hash@ + ".checkpoint"@,
{
    let mut out = chars_of(hash);
    extend_str(&mut out, ".checkpoint");
    string_of(&out)
}

} // verus!

verus! {

/// The decimal numeral of `n` reads back as `n`: it is non-empty, made of
/// digits only, and has no leading zero unless it is `0`.
proof fn lemma_decimal_reads_back(n: nat)
    ensures
        decimal(n).len() > 0,
        all_digits(decimal(n), false),
        digits_number(decimal(n), false) == n,
        n > 0 ==> decimal(n)[0] != '0',
    decreases n,
{
    if n >= 10 {
        let d = decimal(n / 10);
        lemma_decimal_reads_back(n / 10);
        let r = decimal(n);
        assert(r == d.push(digit_char(n % 10)));
        assert(r.drop_last() =~= d);
        assert(digit_value(r.last(), false) == Some(n % 10));
        assert forall|i: int| 0 <= i < r.len() implies (#[trigger] digit_value(r[i], false)) is Some by {
            if i < d.len() {
                assert(r[i] == d[i]);
            }
        }
        assert(digits_number(r, false) == digits_number(d, false) * 10 + n % 10);
        assert(n == (n / 10) * 10 + n % 10) by (nonlinear_arith);
        assert(r[0] == d[0]);
    } else {
        assert(digit_value(decimal(n)[0], false) == Some(n));
        assert(decimal(n).drop_last() =~= Seq::<char>::empty());
        assert(digits_number(decimal(n), false) == digits_number(Seq::<char>::empty(), false) * 10 + n);
    }
}

proof fn lemma_parts_xml_prefix(etags: Seq<Seq<char>>, k: int)
    requires
        0 <= k <= etags.len(),
    ensures
        parts_xml(etags.take(k)).len() <= parts_xml(etags).len(),
        parts_xml(etags).subrange(0, parts_xml(etags.take(k)).len() as int) == parts_xml(etags.take(k)),
    decreases etags.len(),
{
    if k == etags.len() {
        assert(etags.take(k) =~= etags);
        assert(parts_xml(etags).subrange(0, parts_xml(etags).len() as int) =~= parts_xml(etags));
    } else {
        let init = etags.drop_last();
        assert(init.take(k) =~= etags.take(k));
        lemma_parts_xml_prefix(init, k);
        let whole = parts_xml(etags);
        let p = parts_xml(init);
        assert(whole == p + part_xml((etags.len() - 1) as nat, etags.last()));
        assert(whole.subrange(0, parts_xml(etags.take(k)).len() as int) =~= p.subrange(
            0,
            parts_xml(etags.take(k)).len() as int,
        ));
    }
}

/// Part numbers count up from 1 in list order: the body for a list of
/// ETags is built element by element, and for every position `i` the
/// element added for `etags[i]` carries, as its part number, a numeral made
/// of decimal digits without leading zero that reads back as `i + 1`,
/// followed by the escaped ETag in quotes. The elements for the first `k`
/// ETags start the body for the whole list.
pub proof fn lemma_parts_numbered_in_order(etags: Seq<Seq<char>>, i: int)
    requires
        0 <= i < etags.len(),
    ensures
        parts_xml(etags.take(0)) == Seq::<char>::empty(),
        parts_xml(etags).subrange(0, parts_xml(etags.take(i + 1)).len() as int) == parts_xml(etags.take(i + 1)),
        exists|num: Seq<char>|
            #[trigger] all_digits(num, false) && num.len() > 0 && num[0] != '0' && digits_number(num, false) == i + 1
                && parts_xml(etags.take(i + 1)) == parts_xml(etags.take(i)) + "<Part><PartNumber>"@ + num
                + "</PartNumber><ETag>\""@ + xml_escape(etags[i]) + "\"</ETag></Part>"@,
{
    lemma_parts_xml_prefix(etags, i + 1);
    let t = etags.take(i + 1);
    assert(t.drop_last() =~= etags.take(i));
    assert(t.last() == etags[i]);
    let num = decimal((i + 1) as nat);
    lemma_decimal_reads_back((i + 1) as nat);
    assert(parts_xml(t) == parts_xml(etags.take(i)) + part_xml(i as nat, etags[i]));
    assert(part_xml(i as nat, etags[i]) == "<Part><PartNumber>"@ + num + "</PartNumber><ETag>\""@ + xml_escape(
        etags[i],
    ) + "\"</ETag></Part>"@);
    assert(parts_xml(etags.take(i + 1)) =~= parts_xml(etags.take(i)) + "<Part><PartNumber>"@ + num
        + "</PartNumber><ETag>\""@ + xml_escape(etags[i]) + "\"</ETag></Part>"@);
    assert(all_digits(num, false));
}

} // verus!
