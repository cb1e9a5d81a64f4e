//! The settings of a connection to one bucket, and the URLs derived from them.

use vstd::prelude::*;
use vstd::string::StringExecFns;
use crate::config::Config;
use crate::error::OssError;
use crate::query::{build_canonical_query_string, canonical_query, QueryParams};
use crate::text::{
    chars_of, extend_chars, extend_str, has_prefix, string_of, trim_end_char, trim_end_matches_char,
    trim_start_char, trim_start_matches_char,
};
use crate::validate::{get_region_from_endpoint, region_of_endpoint, strip_endpoint_scheme, strip_scheme};

verus! {

/// Everything a request to the bucket is built from. The transport itself is
/// kept by the caller.
#[derive(Clone, Debug)]
pub struct OssClient {
    pub access_key_id: String,
    pub access_key_secret: String,
    /// Host name of the service, without scheme.
    pub endpoint: String,
    pub bucket_name: String,
    pub region: String,
    /// `http` or `https`.
    pub scheme: String,
    pub cdn_domain: Option<String>,
    pub path_prefix: Option<String>,
}

/// Message when no region is configured and none can be read from the endpoint.
pub open spec fn no_region_message(endpoint: Seq<char>) -> Seq<char> {
    "无法从 endpoint '"@ + endpoint + "' 推断 region，请设置 region 配置或 OSS_REGION 环境变量"@
}

impl OssClient {
    /// Builds a client from a configuration. Fails only when there is no
    /// region configured and none can be read from the endpoint.
    pub fn new(config: &Config) -> (r: Result<OssClient, OssError>)
        ensures
            match r {
                Ok(c) => {
                    &&& c.access_key_id == config.access_key_id
                    &&& c.access_key_secret == config.access_key_secret
                    &&& c.bucket_name == config.bucket_name
                    &&& c.cdn_domain == config.cdn_domain
                    &&& c.path_prefix == config.path_prefix
                    &&& c.endpoint@ == strip_scheme(config.endpoint@)
                    &&& c.scheme@ == if has_prefix(config.endpoint@, "http://"@) {
                        "http"@
                    } else {
                        "https"@
                    }
                    &&& match config.region {
                        Some(reg) => c.region == reg,
                        None => region_of_endpoint(config.endpoint@) == Some(c.region@),
                    }
                },
                Err(e) => {
                    &&& config.region is None
                    &&& region_of_endpoint(config.endpoint@) is None
                    &&& e matches OssError::InvalidEndpoint(m) && m@ == no_region_message(config.endpoint@)
                },
            },
    {
        let region = match &config.region {
            Some(r) => r.clone(),
            None => match get_region_from_endpoint(config.endpoint.as_str()) {
                Some(r) => r,
                None => {
                    let mut m = chars_of("无法从 endpoint '");
                    extend_str(&mut m, config.endpoint.as_str());
                    extend_str(&mut m, "' 推断 region，请设置 region 配置或 OSS_REGION 环境变量");
                    return Err(OssError::InvalidEndpoint(string_of(&m)));
                },
            },
        };
        let ep = chars_of(config.endpoint.as_str());
        let http = chars_of("http://");
        let scheme = if crate::text::starts_with(&ep, &http) {
            String::from_str("http")
        } else {
            String::from_str("https")
        };
        let endpoint = string_of(&strip_endpoint_scheme(config.endpoint.as_str()));
        Ok(
            OssClient {
                access_key_id: config.access_key_id.clone(),
                access_key_secret: config.access_key_secret.clone(),
                endpoint,
                bucket_name: config.bucket_name.clone(),
                region,
                scheme,
                cdn_domain: config.cdn_domain.clone(),
                path_prefix: config.path_prefix.clone(),
            },
        )
    }

    /// The object key under the configured path prefix: with a non-empty
    /// prefix, the prefix without trailing `/`, one `/`, and the path without
    /// leading `/`; otherwise the path unchanged.
    pub open spec fn full_path(&self, remote_path: Seq<char>) -> Seq<char> {
        match self.path_prefix {
            Some(p) if p@.len() > 0 => trim_end_char(p@, '/') + "/"@ + trim_start_char(remote_path, '/'),
            _ => remote_path,
        }
    }

    /// Applies the configured path prefix to a remote path.
    pub fn full_remote_path(&self, remote_path: &str) -> (r: String)
        ensures
            r@ == self.full_path(remote_path@),
    {
        match &self.path_prefix {
            Some(prefix) => {
                let pc = chars_of(prefix.as_str());
                if pc.len() > 0 {
                    let mut out = trim_end_matches_char(&pc, '/');
                    out.push('/');
                    let rc = chars_of(remote_path);
                    let tail = trim_start_matches_char(&rc, '/');
                    extend_chars(&mut out, &tail);
                    proof {
                        reveal_strlit("/");
                    }
                    string_of(&out)
                } else {
                    String::from_str(remote_path)
                }
            },
            None => String::from_str(remote_path),
        }
    }

    /// `{scheme}://{bucket}.{endpoint}/{path}` with the path's leading `/`
    /// removed.
    pub open spec fn object_url(&self, remote_path: Seq<char>) -> Seq<char> {
        self.scheme@ + "://"@ + self.bucket_name@ + "."@ + self.endpoint@ + "/"@ + trim_start_char(
            remote_path,
            '/',
        )
    }

    /// The URL of an object on the service.
    pub fn build_url(&self, remote_path: &str) -> (r: String)
        ensures
            r@ == self.object_url(remote_path@),
    {
        let rc = chars_of(remote_path);
        let path = trim_start_matches_char(&rc, '/');
        let mut out = chars_of(self.scheme.as_str());
        extend_str(&mut out, "://");
        extend_str(&mut out, self.bucket_name.as_str());
        extend_str(&mut out, ".");
        extend_str(&mut out, self.endpoint.as_str());
        extend_str(&mut out, "/");
        extend_chars(&mut out, &path);
        string_of(&out)
    }

    /// The object URL followed by `?` and the canonical query string, when
    /// there are parameters.
    pub open spec fn url_with_query(&self, remote_path: Seq<char>, query: Seq<(Seq<char>, Seq<char>)>) -> Seq<char> {
        let qs = canonical_query(query);
        if qs.len() == 0 {
            self.object_url(remote_path)
        } else {
            self.object_url(remote_path) + "?"@ + qs
        }
    }

    /// The URL of a request with query parameters.
    pub fn build_url_with_query(&self, remote_path: &str, query: &QueryParams) -> (r: String)
        ensures
            r@ == self.url_with_query(remote_path@, query@),
    {
        let base = self.build_url(remote_path);
        let qs = build_canonical_query_string(query);
        let qc = chars_of(qs.as_str());
        if qc.len() == 0 {
            base
        } else {
            let mut out = chars_of(base.as_str());
            extend_str(&mut out, "?");
            extend_chars(&mut out, &qc);
            string_of(&out)
        }
    }

    /// Where an uploaded object can be downloaded: through the CDN domain
    /// when one is configured (`{cdn}/{path}`, with the domain's trailing and
    /// the path's leading `/` removed), else the object URL.
    pub open spec fn download_url(&self, remote_path: Seq<char>) -> Seq<char> {
        match self.cdn_domain {
            Some(d) if d@.len() > 0 => trim_end_char(d@, '/') + "/"@ + trim_start_char(remote_path, '/'),
            _ => self.object_url(remote_path),
        }
    }

    /// The download URL of an uploaded object.
    pub fn generate_download_url(&self, remote_path: &str) -> (r: String)
        ensures
            r@ == self.download_url(remote_path@),
    {
        match &self.cdn_domain {
            Some(domain) => {
                let dc = chars_of(domain.as_str());
                if dc.len() > 0 {
                    let mut out = trim_end_matches_char(&dc, '/');
                    out.push('/');
                    let rc = chars_of(remote_path);
                    let tail = trim_start_matches_char(&rc, '/');
                    extend_chars(&mut out, &tail);
                    proof {
                        reveal_strlit("/");
                    }
                    string_of(&out)
                } else {
                    self.build_url(remote_path)
                }
            },
            None => self.build_url(remote_path),
        }
    }
}

} // verus!

verus! {

/// `n` slashes.
pub open spec fn slashes(n: nat) -> Seq<char> {
    Seq::new(n, |_i: int| '/')
}

proof fn lemma_trim_end_slashes(base: Seq<char>, a: nat)
    requires
        base.len() == 0 || base.last() != '/',
    ensures
        trim_end_char(base + slashes(a), '/') == base,
    decreases a,
{
    if a > 0 {
        assert((base + slashes(a)).drop_last() =~= base + slashes((a - 1) as nat));
        lemma_trim_end_slashes(base, (a - 1) as nat);
    } else {
        assert(base + slashes(0) =~= base);
    }
}

proof fn lemma_trim_start_slashes(tail: Seq<char>, b: nat)
    requires
        tail.len() == 0 || tail[0] != '/',
    ensures
        trim_start_char(slashes(b) + tail, '/') == tail,
    decreases b,
{
    if b > 0 {
        assert((slashes(b) + tail).drop_first() =~= slashes((b - 1) as nat) + tail);
        lemma_trim_start_slashes(tail, (b - 1) as nat);
    } else {
        assert(slashes(0) + tail =~= tail);
    }
}

impl OssClient {
    /// Joining the path prefix: write a non-empty prefix as `base` followed by
    /// its trailing slashes and the remote path as its leading slashes
    /// followed by `tail`; the full path is `base`, exactly one `/`, then
    /// `tail`. Without a prefix (or with an empty one) the path is unchanged.
    pub proof fn lemma_full_path_joins_with_one_slash(
        &self,
        base: Seq<char>,
        a: nat,
        tail: Seq<char>,
        b: nat,
    )
        requires
            base.len() == 0 || base.last() != '/',
            tail.len() == 0 || tail[0] != '/',
        ensures
            (self.path_prefix matches Some(p) && p@ == base + slashes(a) && p@.len() > 0) ==> self.full_path(
                slashes(b) + tail,
            ) == base + "/"@ + tail,
            !(self.path_prefix matches Some(p) && p@.len() > 0) ==> self.full_path(slashes(b) + tail) == slashes(
                b,
            ) + tail,
    {
        lemma_trim_end_slashes(base, a);
        lemma_trim_start_slashes(tail, b);
    }
}

} // verus!
