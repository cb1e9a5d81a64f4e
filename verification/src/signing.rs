//! Version 4 request signing: canonical URI, canonical headers, the signing
//! key and the `Authorization` header value.

use vstd::prelude::*;
use vstd::utf8::encode_utf8;
use crate::client::OssClient;
use crate::crypto::{hex_encode, hex_lower, hmac_sha256, hmac_sha256_of, sha256, sha256_of, url_encode, url_encode_str};
use crate::query::{lemma_param_list_view, 
    build_canonical_query_string, canonical_query, key_index, pairs_view, sort_by_key, sort_pairs, HeaderList,
    QueryParams,
};
use crate::text::{
    ascii_lower, ascii_lower_chars, chars_eq, chars_of, extend_chars, extend_str, has_prefix, starts_with, string_of,
    trim, trim_chars,
};

verus! {

/// The pieces of `s` between occurrences of `c` (`str::split` with a char;
/// always at least one piece).
pub open spec fn split_on(s: Seq<char>, c: char) -> Seq<Seq<char>>
    decreases s.len(),
{
    if s.len() == 0 {
        seq![Seq::empty()]
    } else {
        let init = split_on(s.drop_last(), c);
        if s.last() == c {
            init.push(Seq::empty())
        } else {
            init.update(init.len() - 1, init.last().push(s.last()))
        }
    }
}

/// Pieces joined with `sep` between them.
pub open spec fn join_with(parts: Seq<Seq<char>>, sep: Seq<char>) -> Seq<char>
    decreases parts.len(),
{
    if parts.len() == 0 {
        Seq::empty()
    } else if parts.len() == 1 {
        parts[0]
    } else {
        join_with(parts.drop_last(), sep) + sep + parts.last()
    }
}

/// Canonical URI: `/{bucket}/` for the bucket itself, otherwise
/// `/{bucket}/{key}` with the bucket and every `/`-separated segment of the
/// key percent-encoded.
pub open spec fn canonical_uri(bucket: Seq<char>, object_key: Seq<char>) -> Seq<char> {
    if object_key.len() == 0 {
        "/"@ + url_encode(bucket) + "/"@
    } else {
        "/"@ + url_encode(bucket) + "/"@ + join_with(
            split_on(object_key, '/').map_values(|p: Seq<char>| url_encode(p)),
            "/"@,
        )
    }
}

proof fn lemma_split_nonempty(s: Seq<char>, c: char)
    ensures
        split_on(s, c).len() >= 1,
    decreases s.len(),
{
    if s.len() > 0 {
        lemma_split_nonempty(s.drop_last(), c);
    }
}

/// Percent-encodes each `/`-separated segment of an object key, keeping the
/// separators.
fn encode_key_segments(key: &[char]) -> (r: Vec<char>)
    ensures
        r@ == join_with(split_on(key@, '/').map_values(|p: Seq<char>| url_encode(p)), "/"@),
{
    let mut out: Vec<char> = Vec::new();
    let mut cur: Vec<char> = Vec::new();
    let mut i: usize = 0;
    proof {
        reveal_strlit("/");
        assert(key@.take(0) =~= Seq::<char>::empty());
    }
    while i < key.len()
        invariant
            i <= key.len(),
            ({
                let segs = split_on(key@.take(i as int), '/');
                let enc = segs.map_values(|p: Seq<char>| url_encode(p));
                &&& segs.len() >= 1
                &&& cur@ == segs.last()
                &&& out@ == join_with(enc.drop_last(), "/"@) + if segs.len() > 1 { "/"@ } else { Seq::empty() }
            }),
        decreases key.len() - i,
    {
        let ghost pre = key@.take(i as int);
        let ghost segs = split_on(pre, '/');
        proof {
            lemma_split_nonempty(pre, '/');
            assert(key@.take(i + 1).drop_last() =~= pre);
            assert(key@.take(i + 1).last() == key@[i as int]);
        }
        if key[i] == '/' {
            let s = string_of(&cur);
            let e = url_encode_str(s.as_str());
            let ec = chars_of(e.as_str());
            let ghost before = out@;
            extend_chars(&mut out, &ec);
            out.push('/');
            cur = Vec::new();
            proof {
                let segs2 = split_on(key@.take(i + 1), '/');
                let enc = segs.map_values(|p: Seq<char>| url_encode(p));
                let enc2 = segs2.map_values(|p: Seq<char>| url_encode(p));
                assert(segs2 == segs.push(Seq::empty()));
                assert(enc2.drop_last() =~= enc);
                assert(enc.last() == url_encode(segs.last()));
                assert(ec@ == enc.last());
                reveal_strlit("/");
                assert("/"@ =~= seq!['/']);
                assert(out@ =~= before + enc.last() + "/"@);
                if enc.len() > 1 {
                    assert(enc.drop_last() =~= enc.drop_last());
                    assert(join_with(enc, "/"@) == join_with(enc.drop_last(), "/"@) + "/"@ + enc.last());
                } else {
                    assert(join_with(enc, "/"@) == enc[0]);
                }
                assert(out@ =~= join_with(enc2.drop_last(), "/"@) + "/"@);
            }
        } else {
            cur.push(key[i]);
            proof {
                let segs2 = split_on(key@.take(i + 1), '/');
                let enc = segs.map_values(|p: Seq<char>| url_encode(p));
                let enc2 = segs2.map_values(|p: Seq<char>| url_encode(p));
                assert(enc2.drop_last() =~= enc.drop_last());
            }
        }
        i = i + 1;
    }
    let s = string_of(&cur);
    let e = url_encode_str(s.as_str());
    let ec = chars_of(e.as_str());
    let ghost before = out@;
    extend_chars(&mut out, &ec);
    proof {
        assert(key@.take(key.len() as int) =~= key@);
        let segs = split_on(key@, '/');
        let enc = segs.map_values(|p: Seq<char>| url_encode(p));
        assert(enc.last() == url_encode(segs.last()));
        assert(ec@ == enc.last());
        if enc.len() > 1 {
            assert(join_with(enc, "/"@) == join_with(enc.drop_last(), "/"@) + "/"@ + enc.last());
        } else {
            assert(join_with(enc, "/"@) == enc[0]);
        }
        assert(out@ =~= join_with(enc, "/"@));
    }
    out
}

impl OssClient {
    /// The canonical URI of a request for `object_key` in this bucket.
    pub fn build_canonical_uri(&self, object_key: &str) -> (r: String)
        ensures
            r@ == canonical_uri(self.bucket_name@, object_key@),
    {
        let bucket = url_encode_str(self.bucket_name.as_str());
        let mut out = chars_of("/");
        extend_str(&mut out, bucket.as_str());
        extend_str(&mut out, "/");
        let kc = chars_of(object_key);
        if kc.len() > 0 {
            let enc = encode_key_segments(&kc);
            extend_chars(&mut out, &enc);
        }
        string_of(&out)
    }
}

} // verus!

verus! {

/// Text that `HeaderValue::to_str` accepts: visible ASCII and tabs.
pub open spec fn is_visible_text(v: Seq<char>) -> bool {
    forall|i: int| 0 <= i < v.len() ==> ((32 <= (#[trigger] v[i]) as u32 && (v[i] as u32) < 127) || v[i] as u32 == 9)
}

/// The text of a header value as signing reads it: trimmed when it is
/// visible ASCII, empty otherwise.
pub open spec fn header_text(v: Seq<char>) -> Seq<char> {
    if is_visible_text(v) {
        trim(v)
    } else {
        Seq::empty()
    }
}

/// Headers that take part in signing: `content-type`, `content-md5` and
/// every `x-oss-*` header.
pub open spec fn is_signed_name(name: Seq<char>) -> bool {
    name == "content-type"@ || name == "content-md5"@ || has_prefix(name, "x-oss-"@)
}

/// The signed headers, in their order, as (lowercase name, header text).
pub open spec fn signed_headers(h: Seq<(Seq<char>, Seq<char>)>) -> Seq<(Seq<char>, Seq<char>)>
    decreases h.len(),
{
    if h.len() == 0 {
        Seq::empty()
    } else {
        let init = signed_headers(h.drop_last());
        let name = ascii_lower(h.last().0);
        if is_signed_name(name) {
            init.push((name, header_text(h.last().1)))
        } else {
            init
        }
    }
}

/// `name:value\n` for each header, concatenated.
pub open spec fn render_headers(p: Seq<(Seq<char>, Seq<char>)>) -> Seq<char>
    decreases p.len(),
{
    if p.len() == 0 {
        Seq::empty()
    } else {
        render_headers(p.drop_last()) + p.last().0 + ":"@ + p.last().1 + "\n"@
    }
}

/// Canonical headers: the signed headers sorted by name, one `name:value\n`
/// line each.
pub open spec fn canonical_headers(h: Seq<(Seq<char>, Seq<char>)>) -> Seq<char> {
    render_headers(sort_by_key(signed_headers(h)))
}

fn is_visible_chars(v: &[char]) -> (r: bool)
    ensures
        r == is_visible_text(v@),
{
    let mut i: usize = 0;
    while i < v.len()
        invariant
            i <= v.len(),
            forall|j: int| 0 <= j < i ==> ((32 <= (#[trigger] v@[j]) as u32 && (v@[j] as u32) < 127) || v@[j] as u32
                == 9),
        decreases v.len() - i,
    {
        let u = v[i] as u32;
        if !((32 <= u && u < 127) || u == 9) {
            return false;
        }
        i = i + 1;
    }
    true
}

fn render_header_pairs(p: &Vec<(Vec<char>, Vec<char>)>) -> (r: Vec<char>)
    ensures
        r@ == render_headers(pairs_view(p@)),
{
    let ghost pv = pairs_view(p@);
    let mut out: Vec<char> = Vec::new();
    let mut k: usize = 0;
    while k < p.len()
        invariant
            k <= p.len(),
            pv == pairs_view(p@),
            out@ == render_headers(pv.take(k as int)),
        decreases p.len() - k,
    {
        assert(pv.take(k + 1).drop_last() =~= pv.take(k as int));
        let ghost before = out@;
        extend_chars(&mut out, &p[k].0);
        out.push(':');
        extend_chars(&mut out, &p[k].1);
        out.push('\n');
        proof {
            reveal_strlit(":");
            reveal_strlit("\n");
            assert(pv.take(k + 1).last() == pv[k as int]);
        }
        k = k + 1;
        assert(out@ =~= render_headers(pv.take(k as int)));
    }
    assert(pv.take(p.len() as int) =~= pv);
    out
}

impl OssClient {
    /// Canonical headers of a request (see `canonical_headers`).
    pub fn build_canonical_headers(&self, headers: &HeaderList) -> (r: String)
        ensures
            r@ == canonical_headers(headers@),
    {
        let ct = chars_of("content-type");
        let md5 = chars_of("content-md5");
        let xoss = chars_of("x-oss-");
        let mut picked: Vec<(Vec<char>, Vec<char>)> = Vec::new();
        let mut i: usize = 0;
        proof {
            lemma_param_list_view(headers);
        }
        while i < headers.entries.len()
            invariant
                i <= headers.entries.len(),
                headers@ == headers.entries@.map_values(|e: (String, String)| (e.0@, e.1@)),
                headers@.len() == headers.entries@.len(),
                ct@ == "content-type"@,
                md5@ == "content-md5"@,
                xoss@ == "x-oss-"@,
                pairs_view(picked@) == signed_headers(headers@.take(i as int)),
            decreases headers.entries.len() - i,
        {
            let ghost before = pairs_view(picked@);
            assert(headers@.take(i + 1).drop_last() =~= headers@.take(i as int));
            assert(headers@.take(i + 1).last() == headers@[i as int]);
            assert(headers@[i as int] == (headers.entries@[i as int].0@, headers.entries@[i as int].1@));
            let nc = chars_of(headers.entries[i].0.as_str());
            let name = ascii_lower_chars(&nc);
            if chars_eq(&name, &ct) || chars_eq(&name, &md5) || starts_with(&name, &xoss) {
                let vc = chars_of(headers.entries[i].1.as_str());
                let value = if is_visible_chars(&vc) { trim_chars(&vc) } else { Vec::new() };
                picked.push((name, value));
                assert(pairs_view(picked@) =~= before.push((name@, value@)));
            }
            i = i + 1;
        }
        assert(headers@.take(i as int) =~= headers@);
        let sorted = sort_pairs(picked);
        let out = render_header_pairs(&sorted);
        string_of(&out)
    }
}

/// The signing key: HMAC-SHA256 applied in turn to the date, the region,
/// `oss` and `aliyun_v4_request`, starting from `aliyun_v4` + secret.
pub open spec fn signing_key(secret: Seq<char>, date: Seq<char>, region: Seq<char>) -> Seq<u8> {
    let k1 = hmac_sha256_of(encode_utf8("aliyun_v4"@ + secret), encode_utf8(date));
    let k2 = hmac_sha256_of(k1, encode_utf8(region));
    let k3 = hmac_sha256_of(k2, encode_utf8("oss"@));
    hmac_sha256_of(k3, encode_utf8("aliyun_v4_request"@))
}

/// The value of the `x-oss-date` header when it is visible ASCII, else empty.
pub open spec fn request_date_time(headers: Seq<(Seq<char>, Seq<char>)>) -> Seq<char> {
    match key_index(headers, "x-oss-date"@) {
        Some(i) => if is_visible_text(headers[i].1) {
            headers[i].1
        } else {
            Seq::empty()
        },
        None => Seq::empty(),
    }
}

/// The six-line canonical request (the list of additional headers is empty
/// and the payload is unsigned).
pub open spec fn canonical_request(method: Seq<char>, uri: Seq<char>, query: Seq<char>, headers: Seq<char>) -> Seq<char> {
    method + "\n"@ + uri + "\n"@ + query + "\n"@ + headers + "\n"@ + "\n"@ + "UNSIGNED-PAYLOAD"@
}

/// The string to sign: algorithm, timestamp, scope and the hex SHA-256 of
/// the canonical request.
pub open spec fn string_to_sign(date_time: Seq<char>, date: Seq<char>, region: Seq<char>, request: Seq<char>) -> Seq<char> {
    string_to_sign_with(date_time, date, region, hex_lower(sha256_of(encode_utf8(request))))
}

impl OssClient {
    /// The `Authorization` value of a request:
    /// `OSS4-HMAC-SHA256 Credential={id}/{date}/{region}/oss/aliyun_v4_request,Signature={sig}`
    /// where `date` is the first eight characters of `x-oss-date` and `sig`
    /// the hex HMAC of the string to sign under the signing key.
    pub open spec fn authorization(
        &self,
        method: Seq<char>,
        object_key: Seq<char>,
        query: Seq<(Seq<char>, Seq<char>)>,
        headers: Seq<(Seq<char>, Seq<char>)>,
    ) -> Seq<char> {
        let date_time = request_date_time(headers);
        let date = date_time.take(8);
        let request = canonical_request(
            method,
            canonical_uri(self.bucket_name@, object_key),
            canonical_query(query),
            canonical_headers(headers),
        );
        let to_sign = string_to_sign(date_time, date, self.region@, request);
        let signature = hex_lower(
            hmac_sha256_of(signing_key(self.access_key_secret@, date, self.region@), encode_utf8(to_sign)),
        );
        authorization_with(self.access_key_id@, date, self.region@, signature)
    }

    /// Derives the signing key for a date.
    pub fn derive_signing_key(&self, date_string: &str) -> (r: Vec<u8>)
        ensures
            r@ == signing_key(self.access_key_secret@, date_string@, self.region@),
    {
        let mut ks = chars_of("aliyun_v4");
        extend_str(&mut ks, self.access_key_secret.as_str());
        let key_string = string_of(&ks);
        let date_key = hmac_sha256(key_string.as_str().as_bytes(), date_string.as_bytes());
        let region_key = hmac_sha256(date_key.as_slice(), self.region.as_str().as_bytes());
        let service_key = hmac_sha256(region_key.as_slice(), "oss".as_bytes());
        hmac_sha256(service_key.as_slice(), "aliyun_v4_request".as_bytes())
    }

    /// Computes the `Authorization` header value of a request.
    pub fn sign_request(&self, method: &str, object_key: &str, query: &QueryParams, headers: &HeaderList) -> (r: String)
        requires
            request_date_time(headers@).len() >= 8,
        ensures
            r@ == self.authorization(method@, object_key@, query@, headers@),
    {
        let date_time: Vec<char> = match headers.get("x-oss-date") {
            Some(v) => {
                let vc = chars_of(v.as_str());
                if is_visible_chars(&vc) { vc } else { Vec::new() }
            },
            None => Vec::new(),
        };
        let date = crate::text::slice_chars(&date_time, 0, 8);
        assert(date@ == date_time@.take(8));
        let date_time_s = string_of(&date_time);
        let date_s = string_of(&date);
        let uri = self.build_canonical_uri(object_key);
        let query_s = build_canonical_query_string(query);
        let headers_s = self.build_canonical_headers(headers);
        let request = canonical_request_text(method, uri.as_str(), query_s.as_str(), headers_s.as_str());
        let digest = sha256(request.as_str().as_bytes());
        let digest_hex = hex_encode(digest.as_slice());
        let to_sign = string_to_sign_text(
            date_time_s.as_str(),
            date_s.as_str(),
            self.region.as_str(),
            digest_hex.as_str(),
        );
        let key = self.derive_signing_key(date_s.as_str());
        let mac = hmac_sha256(key.as_slice(), to_sign.as_str().as_bytes());
        let signature = hex_encode(mac.as_slice());
        authorization_text(self.access_key_id.as_str(), date_s.as_str(), self.region.as_str(), signature.as_str())
    }
}

/// The canonical request from its parts.
pub fn canonical_request_text(method: &str, uri: &str, query: &str, headers: &str) -> (r: String)
    ensures
        r@ == canonical_request(method@, uri@, query@, headers@),
{
    let mut req = chars_of(method);
    extend_str(&mut req, "\n");
    extend_str(&mut req, uri);
    extend_str(&mut req, "\n");
    extend_str(&mut req, query);
    extend_str(&mut req, "\n");
    extend_str(&mut req, headers);
    extend_str(&mut req, "\n");
    extend_str(&mut req, "\n");
    extend_str(&mut req, "UNSIGNED-PAYLOAD");
    string_of(&req)
}

/// `OSS4-HMAC-SHA256\n{date_time}\n{date}/{region}/oss/aliyun_v4_request\n{hash}`.
pub open spec fn string_to_sign_with(date_time: Seq<char>, date: Seq<char>, region: Seq<char>, hash: Seq<char>) -> Seq<char> {
    "OSS4-HMAC-SHA256\n"@ + date_time + "\n"@ + date + "/"@ + region + "/oss/aliyun_v4_request\n"@ + hash
}

/// The string to sign, given the hex digest of the canonical request.
pub fn string_to_sign_text(date_time: &str, date: &str, region: &str, request_hash: &str) -> (r: String)
    ensures
        r@ == string_to_sign_with(date_time@, date@, region@, request_hash@),
{
    let mut sts = chars_of("OSS4-HMAC-SHA256\n");
    extend_str(&mut sts, date_time);
    extend_str(&mut sts, "\n");
    extend_str(&mut sts, date);
    extend_str(&mut sts, "/");
    extend_str(&mut sts, region);
    extend_str(&mut sts, "/oss/aliyun_v4_request\n");
    extend_str(&mut sts, request_hash);
    string_of(&sts)
}

/// `OSS4-HMAC-SHA256 Credential={id}/{date}/{region}/oss/aliyun_v4_request,Signature={signature}`.
pub open spec fn authorization_with(key_id: Seq<char>, date: Seq<char>, region: Seq<char>, signature: Seq<char>) -> Seq<char> {
    "OSS4-HMAC-SHA256 Credential="@ + key_id + "/"@ + date + "/"@ + region + "/oss/aliyun_v4_request,Signature="@
        + signature
}

/// The `Authorization` value, given the hex signature.
pub fn authorization_text(key_id: &str, date: &str, region: &str, signature: &str) -> (r: String)
    ensures
        r@ == authorization_with(key_id@, date@, region@, signature@),
{
    let mut out = chars_of("OSS4-HMAC-SHA256 Credential=");
    extend_str(&mut out, key_id);
    extend_str(&mut out, "/");
    extend_str(&mut out, date);
    extend_str(&mut out, "/");
    extend_str(&mut out, region);
    extend_str(&mut out, "/oss/aliyun_v4_request,Signature=");
    extend_str(&mut out, signature);
    string_of(&out)
}

} // verus!
