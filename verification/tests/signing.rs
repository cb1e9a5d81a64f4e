use hmac::{Hmac, KeyInit, Mac};
use ossutil::client::OssClient;
use ossutil::config::Config;
use ossutil::signing::{authorization_text, canonical_request_text, string_to_sign_text};
use ossutil::error::OssError;
use ossutil::query::{build_canonical_query_string, HeaderList, QueryParams};
use sha2::{Digest, Sha256};

fn config(endpoint: &str, region: Option<&str>) -> Config {
    Config {
        endpoint: endpoint.to_string(),
        bucket_name: "my-bucket".to_string(),
        access_key_id: "AKID".to_string(),
        access_key_secret: "SECRET".to_string(),
        region: region.map(|s| s.to_string()),
        cdn_domain: None,
        path_prefix: None,
    }
}

fn hmac_ref(key: &[u8], data: &[u8]) -> Vec<u8> {
    let mut mac = <Hmac<Sha256> as KeyInit>::new_from_slice(key).unwrap();
    mac.update(data);
    mac.finalize().into_bytes().to_vec()
}

#[test]
fn signing_pieces() {
    assert_eq!(
        canonical_request_text("GET", "/b/", "", "x-oss-date:1\n"),
        "GET\n/b/\n\nx-oss-date:1\n\n\nUNSIGNED-PAYLOAD"
    );
    assert_eq!(
        string_to_sign_text("20240101T000000Z", "20240101", "cn-x", "abcd"),
        "OSS4-HMAC-SHA256\n20240101T000000Z\n20240101/cn-x/oss/aliyun_v4_request\nabcd"
    );
    assert_eq!(
        authorization_text("ID", "20240101", "cn-x", "ff"),
        "OSS4-HMAC-SHA256 Credential=ID/20240101/cn-x/oss/aliyun_v4_request,Signature=ff"
    );
}

#[test]
fn url_encoding_through_query_strings() {
    let mut q = QueryParams::new();
    q.insert("k".to_string(), "a b/c~d_e.f-g".to_string());
    q.insert("é".to_string(), String::new());
    assert_eq!(build_canonical_query_string(&q), "%C3%A9&k=a%20b%2Fc~d_e.f-g");
}

#[test]
fn client_from_config() {
    let c = OssClient::new(&config("https://oss-cn-hangzhou.aliyuncs.com", None)).unwrap();
    assert_eq!(c.scheme, "https");
    assert_eq!(c.endpoint, "oss-cn-hangzhou.aliyuncs.com");
    assert_eq!(c.region, "cn-hangzhou");
    let c = OssClient::new(&config("http://oss-cn-beijing.aliyuncs.com", Some("custom"))).unwrap();
    assert_eq!(c.scheme, "http");
    assert_eq!(c.endpoint, "oss-cn-beijing.aliyuncs.com");
    assert_eq!(c.region, "custom");
    match OssClient::new(&config("localhost", None)) {
        Err(OssError::InvalidEndpoint(m)) => {
            assert_eq!(m, "无法从 endpoint 'localhost' 推断 region，请设置 region 配置或 OSS_REGION 环境变量")
        }
        _ => panic!("expected an endpoint error"),
    }
}

#[test]
fn urls_and_prefixes() {
    let mut cfg = config("oss-cn-hangzhou.aliyuncs.com", None);
    cfg.path_prefix = Some("proj/".to_string());
    cfg.cdn_domain = Some("https://cdn.example.com/".to_string());
    let c = OssClient::new(&cfg).unwrap();
    assert_eq!(c.full_remote_path("/docker/a.zip"), "proj/docker/a.zip");
    assert_eq!(c.build_url("/a/b.txt"), "https://my-bucket.oss-cn-hangzhou.aliyuncs.com/a/b.txt");
    assert_eq!(c.build_url(""), "https://my-bucket.oss-cn-hangzhou.aliyuncs.com/");
    assert_eq!(c.generate_download_url("/docker/x.zip"), "https://cdn.example.com/docker/x.zip");
    let plain = OssClient::new(&config("oss-cn-hangzhou.aliyuncs.com", None)).unwrap();
    assert_eq!(plain.full_remote_path("/keep"), "/keep");
    assert_eq!(plain.generate_download_url("x.zip"), "https://my-bucket.oss-cn-hangzhou.aliyuncs.com/x.zip");
    let mut q = QueryParams::new();
    q.insert("uploadId".to_string(), "ID 1".to_string());
    q.insert("partNumber".to_string(), "2".to_string());
    assert_eq!(
        plain.build_url_with_query("k", &q),
        "https://my-bucket.oss-cn-hangzhou.aliyuncs.com/k?partNumber=2&uploadId=ID%201"
    );
    let empty_prefix = {
        let mut cfg = config("oss-cn-hangzhou.aliyuncs.com", None);
        cfg.path_prefix = Some(String::new());
        cfg.cdn_domain = Some(String::new());
        OssClient::new(&cfg).unwrap()
    };
    assert_eq!(empty_prefix.full_remote_path("/a"), "/a");
    assert_eq!(empty_prefix.generate_download_url("/a"), "https://my-bucket.oss-cn-hangzhou.aliyuncs.com/a");
}

#[test]
fn canonical_query_string_sorts_and_flags() {
    let mut q = QueryParams::new();
    q.insert("uploads".to_string(), String::new());
    assert_eq!(build_canonical_query_string(&q), "uploads");
    let mut q = QueryParams::new();
    q.insert("prefix".to_string(), "a/b".to_string());
    q.insert("max-keys".to_string(), "1000".to_string());
    q.insert("marker".to_string(), "x y".to_string());
    assert_eq!(build_canonical_query_string(&q), "marker=x%20y&max-keys=1000&prefix=a%2Fb");
    q.insert("prefix".to_string(), "c".to_string());
    assert_eq!(build_canonical_query_string(&q), "marker=x%20y&max-keys=1000&prefix=c");
    assert_eq!(build_canonical_query_string(&QueryParams::new()), "");
}

#[test]
fn canonical_uri_and_headers() {
    let c = OssClient::new(&config("oss-cn-hangzhou.aliyuncs.com", None)).unwrap();
    assert_eq!(c.build_canonical_uri(""), "/my-bucket/");
    assert_eq!(c.build_canonical_uri("a b/c//d"), "/my-bucket/a%20b/c//d");
    let mut h = HeaderList::new();
    h.insert("x-oss-date".to_string(), "20240101T000000Z".to_string());
    h.insert("date".to_string(), "Mon, 01 Jan 2024 00:00:00 GMT".to_string());
    h.insert("Content-Type".to_string(), "  text/plain ".to_string());
    h.insert("content-length".to_string(), "5".to_string());
    h.insert("x-oss-meta".to_string(), "é".to_string());
    assert_eq!(
        c.build_canonical_headers(&h),
        "content-type:text/plain\nx-oss-date:20240101T000000Z\nx-oss-meta:\n"
    );
}

#[test]
fn signature_matches_independent_computation() {
    let c = OssClient::new(&config("oss-cn-hangzhou.aliyuncs.com", None)).unwrap();
    let mut q = QueryParams::new();
    q.insert("uploadId".to_string(), "abc".to_string());
    let mut extra = HeaderList::new();
    extra.insert("content-type".to_string(), "application/xml".to_string());
    let p = c
        .prepare_request("POST", "dir/obj.zip", &q, &extra, "Mon, 01 Jan 2024 00:00:00 GMT", "20240101T000000Z")
        .unwrap();
    assert_eq!(p.url, "https://my-bucket.oss-cn-hangzhou.aliyuncs.com/dir/obj.zip?uploadId=abc");
    let canonical = "POST\n/my-bucket/dir/obj.zip\nuploadId=abc\ncontent-type:application/xml\nx-oss-content-sha256:UNSIGNED-PAYLOAD\nx-oss-date:20240101T000000Z\n\n\nUNSIGNED-PAYLOAD";
    let hash = hex::encode(Sha256::digest(canonical.as_bytes()));
    let to_sign = format!(
        "OSS4-HMAC-SHA256\n20240101T000000Z\n20240101/cn-hangzhou/oss/aliyun_v4_request\n{}",
        hash
    );
    let k1 = hmac_ref(b"aliyun_v4SECRET", b"20240101");
    let k2 = hmac_ref(&k1, b"cn-hangzhou");
    let k3 = hmac_ref(&k2, b"oss");
    let k4 = hmac_ref(&k3, b"aliyun_v4_request");
    let sig = hex::encode(hmac_ref(&k4, to_sign.as_bytes()));
    assert_eq!(
        p.authorization,
        format!("OSS4-HMAC-SHA256 Credential=AKID/20240101/cn-hangzhou/oss/aliyun_v4_request,Signature={}", sig)
    );
    assert_eq!(c.derive_signing_key("20240101"), k4);
    let names: Vec<&str> = p.headers.pairs().iter().map(|(k, _)| k.as_str()).collect();
    assert_eq!(names, vec!["content-type", "date", "x-oss-content-sha256", "x-oss-date"]);
}

#[test]
fn bad_date_header_is_rejected() {
    let c = OssClient::new(&config("oss-cn-hangzhou.aliyuncs.com", None)).unwrap();
    let r = c.prepare_request("GET", "", &QueryParams::new(), &HeaderList::new(), "bad\ndate", "20240101T000000Z");
    match r {
        Err(OssError::Other(m)) => assert_eq!(m, "invalid date header: failed to parse header value"),
        _ => panic!("expected an error"),
    }
}

#[test]
fn canonical_query_string_ignores_insertion_order() {
    let mut a = QueryParams::new();
    a.insert("uploadId".to_string(), "abc".to_string());
    a.insert("partNumber".to_string(), "7".to_string());
    a.insert("acl".to_string(), String::new());
    let mut b = QueryParams::new();
    b.insert("acl".to_string(), String::new());
    b.insert("partNumber".to_string(), "7".to_string());
    b.insert("uploadId".to_string(), "abc".to_string());
    assert_eq!(build_canonical_query_string(&a), build_canonical_query_string(&b));
    assert_eq!(build_canonical_query_string(&a), "acl&partNumber=7&uploadId=abc");
}
