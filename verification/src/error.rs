//! Error values of the library and their messages.

use vstd::prelude::*;
use vstd::string::StringExecFns;
use crate::text::{chars_of, extend_str, string_of};

verus! {

/// An error document returned by the storage service
/// (`<Error><Code>..</Code><Message>..</Message>..</Error>`).
#[derive(Clone, Debug)]
pub struct OssApiError {
    pub code: String,
    pub message: String,
    pub request_id: String,
    pub host_id: String,
    pub ec: String,
    pub recommend_doc: String,
}

impl OssApiError {
    /// Whether every field is empty.
    pub open spec fn is_blank(&self) -> bool {
        &&& self.code@ == Seq::<char>::empty()
        &&& self.message@ == Seq::<char>::empty()
        &&& self.request_id@ == Seq::<char>::empty()
        &&& self.host_id@ == Seq::<char>::empty()
        &&& self.ec@ == Seq::<char>::empty()
        &&& self.recommend_doc@ == Seq::<char>::empty()
    }

    /// An error with every field empty.
    pub fn empty() -> (r: Self)
        ensures
            r.is_blank(),
    {
        OssApiError {
            code: String::new(),
            message: String::new(),
            request_id: String::new(),
            host_id: String::new(),
            ec: String::new(),
            recommend_doc: String::new(),
        }
    }

    /// `OSS API Error [{code}]: {message} (RequestId: {request_id})`.
    pub open spec fn display(&self) -> Seq<char> {
        "OSS API Error ["@ + self.code@ + "]: "@ + self.message@ + " (RequestId: "@ + self.request_id@
            + ")"@
    }

    /// The human-readable form of the error.
    pub fn to_string(&self) -> (r: String)
        ensures
            r@ == self.display(),
    {
        let mut out = chars_of("OSS API Error [");
        extend_str(&mut out, self.code.as_str());
        extend_str(&mut out, "]: ");
        extend_str(&mut out, self.message.as_str());
        extend_str(&mut out, " (RequestId: ");
        extend_str(&mut out, self.request_id.as_str());
        extend_str(&mut out, ")");
        string_of(&out)
    }
}

impl Default for OssApiError {
    fn default() -> (r: Self)
        ensures
            r.is_blank(),
    {
        OssApiError::empty()
    }
}

/// Errors of storage operations. Failures of the transport, of the file
/// system and of header construction carry the text of the underlying error.
#[derive(Clone, Debug)]
pub enum OssError {
    Api(Box<OssApiError>),
    Io(String),
    Reqwest(String),
    InvalidHeaderName(String),
    InvalidHeaderValue(String),
    UrlError(String),
    InvalidBucketName(String),
    InvalidObjectKey(String),
    InvalidFilePath(String),
    InvalidEndpoint(String),
    ConfigError(String),
    XmlParse(String),
    Other(String),
}

impl OssError {
    /// The message of each variant.
    pub open spec fn display(&self) -> Seq<char> {
        match self {
            OssError::Api(e) => "OSS API error: "@ + e.display(),
            OssError::Io(s) => "IO error: "@ + s@,
            OssError::Reqwest(s) => "HTTP error: "@ + s@,
            OssError::InvalidHeaderName(s) => "invalid header name: "@ + s@,
            OssError::InvalidHeaderValue(s) => "invalid header value: "@ + s@,
            OssError::UrlError(s) => "URL error: "@ + s@,
            OssError::InvalidBucketName(s) => "invalid bucket name: "@ + s@,
            OssError::InvalidObjectKey(s) => "invalid object key: "@ + s@,
            OssError::InvalidFilePath(s) => "invalid file path: "@ + s@,
            OssError::InvalidEndpoint(s) => "invalid endpoint: "@ + s@,
            OssError::ConfigError(s) => "config error: "@ + s@,
            OssError::XmlParse(s) => "XML parse error: "@ + s@,
            OssError::Other(s) => s@,
        }
    }

    /// The human-readable form of the error.
    pub fn to_string(&self) -> (r: String)
        ensures
            r@ == self.display(),
    {
        let (head, body) = match self {
            OssError::Api(e) => ("OSS API error: ", e.to_string()),
            OssError::Io(s) => ("IO error: ", s.clone()),
            OssError::Reqwest(s) => ("HTTP error: ", s.clone()),
            OssError::InvalidHeaderName(s) => ("invalid header name: ", s.clone()),
            OssError::InvalidHeaderValue(s) => ("invalid header value: ", s.clone()),
            OssError::UrlError(s) => ("URL error: ", s.clone()),
            OssError::InvalidBucketName(s) => ("invalid bucket name: ", s.clone()),
            OssError::InvalidObjectKey(s) => ("invalid object key: ", s.clone()),
            OssError::InvalidFilePath(s) => ("invalid file path: ", s.clone()),
            OssError::InvalidEndpoint(s) => ("invalid endpoint: ", s.clone()),
            OssError::ConfigError(s) => ("config error: ", s.clone()),
            OssError::XmlParse(s) => ("XML parse error: ", s.clone()),
            OssError::Other(s) => ("", s.clone()),
        };
        let mut out = chars_of(head);
        extend_str(&mut out, body.as_str());
        proof {
            reveal_strlit("");
        }
        string_of(&out)
    }
}

impl From<OssApiError> for OssError {
    fn from(err: OssApiError) -> (r: Self) {
        OssError::Api(Box::new(err))
    }
}

impl vstd::std_specs::convert::FromSpecImpl<OssApiError> for OssError {
    open spec fn obeys_from_spec() -> bool {
        true
    }

    open spec fn from_spec(v: OssApiError) -> Self {
        OssError::Api(Box::new(v))
    }
}

} // verus!
