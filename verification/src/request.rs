//! What the library decides around each HTTP exchange: the URL, headers and
//! signature of a request, and the error made from a failed response.

use vstd::prelude::*;
use vstd::string::StringExecFns;
use crate::client::OssClient;
use crate::error::OssError;
use crate::query::{lemma_set_entry_then_get, set_entry, HeaderList, QueryParams};
use crate::response::{api_error_fields, api_error_outcome};
use crate::signing::{is_visible_text, request_date_time};
use crate::text::{chars_of, extend_chars, extend_str, has_prefix, starts_with, string_of, trim, trim_chars, trim_start, trim_start_chars};
use crate::xml::xml_tokens;

verus! {

/// Whether a body looks like an XML error document: after leading
/// whitespace it starts with `<?xml` or `<Error`.
pub open spec fn looks_like_xml(body: Seq<char>) -> bool {
    has_prefix(trim_start(body), "<?xml"@) || has_prefix(trim_start(body), "<Error"@)
}

/// Message for a failed request whose body is not a usable error document.
pub open spec fn failure_text(method: Seq<char>, url: Seq<char>, status: Seq<char>, body: Seq<char>) -> Seq<char> {
    if body.len() == 0 {
        method + " "@ + url + " → HTTP "@ + status + " (no response body)"@
    } else {
        method + " "@ + url + " → HTTP "@ + status + ": "@ + trim(body)
    }
}

/// The error made from a failed response: the service's error document when
/// the body looks like XML and yields a non-empty code, otherwise a message
/// with the method, URL, status and trimmed body.
pub fn error_from_response(method: &str, url: &str, status: &str, body: &str) -> (r: OssError)
    ensures
        match r {
            OssError::Api(e) => {
                &&& looks_like_xml(body@)
                &&& api_error_outcome(xml_tokens(body@)).0.len() > 0
                &&& api_error_fields(*e) == api_error_outcome(xml_tokens(body@))
            },
            OssError::Other(m) => {
                &&& !(looks_like_xml(body@) && api_error_outcome(xml_tokens(body@)).0.len() > 0)
                &&& m@ == failure_text(method@, url@, status@, body@)
            },
            _ => false,
        },
{
    let bc = chars_of(body);
    let head = trim_start_chars(&bc);
    let decl = chars_of("<?xml");
    let err = chars_of("<Error");
    if starts_with(&head, &decl) || starts_with(&head, &err) {
        let api = crate::error::OssApiError::from_xml(body);
        if api.code.as_str().is_empty() == false {
            return OssError::Api(Box::new(api));
        }
    }
    let mut m = chars_of(method);
    extend_str(&mut m, " ");
    extend_str(&mut m, url);
    extend_str(&mut m, " → HTTP ");
    extend_str(&mut m, status);
    if bc.len() == 0 {
        extend_str(&mut m, " (no response body)");
    } else {
        extend_str(&mut m, ": ");
        let t = trim_chars(&bc);
        extend_chars(&mut m, &t);
    }
    OssError::Other(string_of(&m))
}

/// Text that `HeaderValue::from_str` accepts: no control characters other
/// than tab (characters beyond ASCII are accepted).
pub open spec fn is_header_value(v: Seq<char>) -> bool {
    forall|i: int| 0 <= i < v.len() ==> ((32 <= (#[trigger] v[i]) as u32 && (v[i] as u32) != 127) || v[i] as u32 == 9)
}

fn is_header_value_chars(v: &[char]) -> (r: bool)
    ensures
        r == is_header_value(v@),
{
    let mut i: usize = 0;
    while i < v.len()
        invariant
            i <= v.len(),
            forall|j: int| 0 <= j < i ==> ((32 <= (#[trigger] v@[j]) as u32 && (v@[j] as u32) != 127) || v@[j] as u32
                == 9),
        decreases v.len() - i,
    {
        let u = v[i] as u32;
        if !((32 <= u && u != 127) || u == 9) {
            return false;
        }
        i = i + 1;
    }
    true
}

/// A request ready to be sent: its URL, its headers and the value of its
/// `authorization` header.
#[derive(Debug)]
pub struct PreparedRequest {
    pub url: String,
    pub headers: HeaderList,
    pub authorization: String,
}

/// `extra` with `date`, `x-oss-content-sha256: UNSIGNED-PAYLOAD` and
/// `x-oss-date` set, in that order.
pub open spec fn standard_headers(extra: Seq<(Seq<char>, Seq<char>)>, gmt_date: Seq<char>, oss_date: Seq<char>) -> Seq<(Seq<char>, Seq<char>)> {
    set_entry(set_entry(set_entry(extra, "date"@, gmt_date), "x-oss-content-sha256"@, "UNSIGNED-PAYLOAD"@), "x-oss-date"@, oss_date)
}

impl OssClient {
    /// Prepares a signed request: the URL with its query, the caller's
    /// headers plus the date headers and the unsigned-payload marker, and the
    /// V4 `authorization` value over exactly those headers. Fails when the
    /// `date` value is not a valid header value.
    pub fn prepare_request(
        &self,
        method: &str,
        object_key: &str,
        query: &QueryParams,
        extra_headers: &HeaderList,
        gmt_date: &str,
        oss_date: &str,
    ) -> (r: Result<PreparedRequest, OssError>)
        requires
            is_visible_text(oss_date@),
            oss_date@.len() >= 8,
        ensures
            match r {
                Ok(p) => {
                    let headers = standard_headers(extra_headers@, gmt_date@, oss_date@);
                    &&& is_header_value(gmt_date@)
                    &&& p.url@ == self.url_with_query(object_key@, query@)
                    &&& p.headers@ == headers
                    &&& p.authorization@ == self.authorization(method@, object_key@, query@, headers)
                },
                Err(e) => !is_header_value(gmt_date@) && (e matches OssError::Other(m) && m@
                    == "invalid date header: failed to parse header value"@),
            },
    {
        let url = self.build_url_with_query(object_key, query);
        let gc = chars_of(gmt_date);
        if !is_header_value_chars(&gc) {
            return Err(OssError::Other(String::from_str("invalid date header: failed to parse header value")));
        }
        let mut headers = extra_headers.duplicate();
        headers.insert(String::from_str("date"), String::from_str(gmt_date));
        headers.insert(String::from_str("x-oss-content-sha256"), String::from_str("UNSIGNED-PAYLOAD"));
        headers.insert(String::from_str("x-oss-date"), String::from_str(oss_date));
        proof {
            let h1 = set_entry(extra_headers@, "date"@, gmt_date@);
            let h2 = set_entry(h1, "x-oss-content-sha256"@, "UNSIGNED-PAYLOAD"@);
            lemma_set_entry_then_get(h2, "x-oss-date"@, oss_date@);
            assert(request_date_time(headers@) == oss_date@);
        }
        let authorization = self.sign_request(method, object_key, query, &headers);
        Ok(PreparedRequest { url, headers, authorization })
    }
}

} // verus!
