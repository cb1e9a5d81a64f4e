use ossutil::error::{OssApiError, OssError};
use ossutil::listing::ListCursor;
use ossutil::request::error_from_response;
use ossutil::response::{parse_list_response, parse_upload_id, ListPage};
use ossutil::xml::{decode_reference_exec, xml_events, XmlEvent};

#[test]
fn upload_id_is_read_and_trimmed() {
    let xml = "<?xml version=\"1.0\"?><InitiateMultipartUploadResult><Bucket>b</Bucket><Key>k</Key><UploadId> 0004B9894A22E5B1888A1E29F823**** </UploadId></InitiateMultipartUploadResult>";
    assert_eq!(parse_upload_id(xml).unwrap(), "0004B9894A22E5B1888A1E29F823****");
}

#[test]
fn missing_upload_id_is_an_error() {
    match parse_upload_id("<Result><Other>x</Other></Result>") {
        Err(OssError::XmlParse(m)) => assert_eq!(m, "响应中未找到 UploadId"),
        _ => panic!("expected an error"),
    }
    match parse_upload_id("<UploadId></UploadId>") {
        Err(OssError::XmlParse(m)) => assert_eq!(m, "响应中未找到 UploadId"),
        _ => panic!("expected an error"),
    }
}

#[test]
fn malformed_xml_reports_the_reader_error() {
    match parse_upload_id("<a></b>") {
        Err(OssError::XmlParse(m)) => assert!(m.starts_with("解析 XML 失败: "), "{}", m),
        other => panic!("expected a parse error, got {:?}", other),
    }
}

#[test]
fn events_end_with_eof_or_error() {
    let ev = xml_events("<a>x</a>");
    assert!(matches!(ev.last(), Some(XmlEvent::Eof)));
    assert!(matches!(&ev[0], XmlEvent::Start(name) if name == "a"));
    assert!(matches!(&ev[1], XmlEvent::Text(t) if t == "x"));
    let ev = xml_events("<a></b>");
    assert!(matches!(ev.last(), Some(XmlEvent::Error(_))));
}

#[test]
fn list_page_is_parsed() {
    let xml = "<?xml version=\"1.0\" encoding=\"UTF-8\"?>\n<ListBucketResult>\n  <Name>b</Name>\n  <IsTruncated>true</IsTruncated>\n  <NextMarker>docker/b.zip</NextMarker>\n  <Contents><Key>docker/a.zip</Key><Size>1</Size></Contents>\n  <Contents><Key> docker/b.zip </Key></Contents>\n</ListBucketResult>";
    let page = parse_list_response(xml);
    assert_eq!(page.keys, vec!["docker/a.zip".to_string(), "docker/b.zip".to_string()]);
    assert!(page.is_truncated);
    assert_eq!(page.next_marker, Some("docker/b.zip".to_string()));
    let page = parse_list_response("<ListBucketResult><IsTruncated>false</IsTruncated></ListBucketResult>");
    assert!(page.keys.is_empty());
    assert!(!page.is_truncated);
    assert_eq!(page.next_marker, None);
}

#[test]
fn list_cursor_walks_pages() {
    let mut cur = ListCursor::new("docker/");
    let q = cur.next_query();
    let keys: Vec<&str> = q.pairs().iter().map(|(k, _)| k.as_str()).collect();
    assert_eq!(keys, vec!["prefix", "max-keys"]);
    cur.advance(ListPage { keys: vec!["docker/a".to_string(), "docker/b".to_string()], is_truncated: true, next_marker: None });
    assert!(!cur.done);
    assert_eq!(cur.marker, "docker/b");
    let q = cur.next_query();
    let pairs: Vec<(String, String)> = q.pairs().clone();
    assert_eq!(pairs[1], ("marker".to_string(), "docker/b".to_string()));
    cur.advance(ListPage { keys: vec!["docker/c".to_string()], is_truncated: false, next_marker: Some("m".to_string()) });
    assert!(cur.done);
    assert_eq!(cur.marker, "m");
    assert_eq!(cur.keys, vec!["docker/a".to_string(), "docker/b".to_string(), "docker/c".to_string()]);
    let mut stuck = ListCursor::new("");
    stuck.advance(ListPage { keys: vec![], is_truncated: true, next_marker: Some("z".to_string()) });
    assert!(stuck.done);
    assert_eq!(stuck.marker, "");
    assert_eq!(stuck.next_query().pairs().len(), 1);
}

#[test]
fn api_error_document() {
    let xml = "<?xml version=\"1.0\" ?><Error><Code>NoSuchKey</Code><Message>The specified key does not exist.</Message><RequestId>5C3D9175B6FC201293AD****</RequestId><HostId>b.oss-cn-hangzhou.aliyuncs.com</HostId><EC>0026-00000001</EC><RecommendDoc>https://api.aliyun.com/troubleshoot?q=0026-00000001</RecommendDoc></Error>";
    let e = OssApiError::from_xml(xml);
    assert_eq!(e.code, "NoSuchKey");
    assert_eq!(e.message, "The specified key does not exist.");
    assert_eq!(e.request_id, "5C3D9175B6FC201293AD****");
    assert_eq!(e.host_id, "b.oss-cn-hangzhou.aliyuncs.com");
    assert_eq!(e.ec, "0026-00000001");
    assert_eq!(e.recommend_doc, "https://api.aliyun.com/troubleshoot?q=0026-00000001");
    assert_eq!(
        e.to_string(),
        "OSS API Error [NoSuchKey]: The specified key does not exist. (RequestId: 5C3D9175B6FC201293AD****)"
    );
    let wrapped: OssError = e.into();
    assert!(wrapped.to_string().starts_with("OSS API error: OSS API Error [NoSuchKey]"));
}

#[test]
fn api_error_text_after_a_closing_tag_belongs_to_no_field() {
    let e = OssApiError::from_xml("<Error>\n  <Code>X</Code>\n  <Message>m</Message>\n</Error>");
    assert_eq!(e.code, "X");
    assert_eq!(e.message, "m");
}

#[test]
fn api_error_document_as_pretty_printed() {
    let xml = "<?xml version=\"1.0\" ?>\n<Error>\n  <Code>MalformedXML</Code>\n  <Message>The XML you provided was not well-formed.</Message>\n  <RequestId>57ABD896CCB80C366955****</RequestId>\n  <HostId>oss-cn-hangzhou.aliyuncs.com</HostId>\n  <EC>0031-00000001</EC>\n  <RecommendDoc>https://api.aliyun.com/troubleshoot?q=0031-00000001</RecommendDoc>\n</Error>";
    let e = OssApiError::from_xml(xml);
    assert_eq!(e.code, "MalformedXML");
    assert_eq!(e.message, "The XML you provided was not well-formed.");
    assert_eq!(e.request_id, "57ABD896CCB80C366955****");
    assert_eq!(e.host_id, "oss-cn-hangzhou.aliyuncs.com");
    assert_eq!(e.ec, "0031-00000001");
    assert_eq!(e.recommend_doc, "https://api.aliyun.com/troubleshoot?q=0031-00000001");
}

#[test]
fn failed_responses() {
    let xml = "<Error><Code>AccessDenied</Code><Message>no</Message></Error>";
    match error_from_response("PUT", "https://b/k", "403 Forbidden", xml) {
        OssError::Api(e) => assert_eq!(e.code, "AccessDenied"),
        other => panic!("unexpected {:?}", other),
    }
    match error_from_response("GET", "https://b/", "500 Internal Server Error", "") {
        OssError::Other(m) => assert_eq!(m, "GET https://b/ → HTTP 500 Internal Server Error (no response body)"),
        other => panic!("unexpected {:?}", other),
    }
    match error_from_response("GET", "https://b/", "502 Bad Gateway", "  upstream down \n") {
        OssError::Other(m) => assert_eq!(m, "GET https://b/ → HTTP 502 Bad Gateway: upstream down"),
        other => panic!("unexpected {:?}", other),
    }
    match error_from_response("GET", "u", "404 Not Found", "<Error><Message>m</Message></Error>") {
        OssError::Other(m) => assert_eq!(m, "GET u → HTTP 404 Not Found: <Error><Message>m</Message></Error>"),
        other => panic!("unexpected {:?}", other),
    }
}

#[test]
fn error_messages() {
    assert_eq!(OssError::Io("disk".to_string()).to_string(), "IO error: disk");
    assert_eq!(OssError::XmlParse("x".to_string()).to_string(), "XML parse error: x");
    assert_eq!(OssError::Other("plain".to_string()).to_string(), "plain");
    assert_eq!(OssError::InvalidEndpoint("e".to_string()).to_string(), "invalid endpoint: e");
    let d = OssApiError::default();
    assert!(d.code.is_empty() && d.message.is_empty() && d.recommend_doc.is_empty());
}

#[test]
fn escaped_text_is_decoded() {
    let xml = "<ListBucketResult><IsTruncated>false</IsTruncated>\
        <Contents><Key>a&amp;b</Key></Contents>\
        <Contents><Key>x&lt;y&gt;&quot;z&apos;</Key></Contents>\
        <Contents><Key>&#38;&#x26;&#X26;</Key></Contents>\
        <Contents><Key><![CDATA[c<d>]]></Key></Contents>\
        <Contents><Key>q&nbsp;r</Key></Contents>\
        <NextMarker>m&amp;n</NextMarker></ListBucketResult>";
    let page = parse_list_response(xml);
    assert_eq!(page.keys, vec!["a&b", "x<y>\"z'", "&&&#X26;", "c<d>", "q&nbsp;r"]);
    assert_eq!(page.next_marker, Some("m&n".to_string()));
    assert!(!page.is_truncated);

    let id = parse_upload_id("<InitiateMultipartUploadResult><UploadId> u&amp;1 </UploadId></InitiateMultipartUploadResult>");
    assert_eq!(id.unwrap(), "u&1");

    let e = OssApiError::from_xml("<Error><Code>A&amp;B</Code><Message>1 &lt; 2</Message></Error>");
    assert_eq!(e.code, "A&B");
    assert_eq!(e.message, "1 < 2");
}

#[test]
fn references_decode() {
    let d = |s: &str| decode_reference_exec(s).into_iter().collect::<String>();
    assert_eq!(d("amp"), "&");
    assert_eq!(d("lt"), "<");
    assert_eq!(d("gt"), ">");
    assert_eq!(d("quot"), "\"");
    assert_eq!(d("apos"), "'");
    assert_eq!(d("#65"), "A");
    assert_eq!(d("#x4e2d"), "\u{4e2d}");
    assert_eq!(d("#x4E2D"), "\u{4e2d}");
    assert_eq!(d("#0"), "&#0;");
    assert_eq!(d("#xD800"), "&#xD800;");
    assert_eq!(d("#x110000"), "&#x110000;");
    assert_eq!(d("#99999999999"), "&#99999999999;");
    assert_eq!(d("#"), "&#;");
    assert_eq!(d("#x"), "&#x;");
    assert_eq!(d("#1a"), "&#1a;");
    assert_eq!(d("copy"), "&copy;");
}

#[test]
fn every_reader_event_is_kept() {
    let ev = xml_events("<?xml version=\"1.0\"?><!DOCTYPE r><r><!--c--><?pi x?><e/><![CDATA[d]]>&amp;</r>");
    assert!(matches!(&ev[0], XmlEvent::Decl(_)));
    assert!(matches!(&ev[1], XmlEvent::DocType(t) if t == "r"));
    assert!(matches!(&ev[3], XmlEvent::Comment(t) if t == "c"));
    assert!(matches!(&ev[4], XmlEvent::PI(_)));
    assert!(matches!(&ev[5], XmlEvent::Empty(name) if name == "e"));
    assert!(matches!(&ev[6], XmlEvent::CData(t) if t == "d"));
    assert!(matches!(&ev[7], XmlEvent::GeneralRef(t) if t == "amp"));
}

#[test]
fn tags_with_attributes_and_prefixes() {
    let ev = xml_events("<a:Key x=\"1\">k</a:Key>");
    assert!(matches!(&ev[0], XmlEvent::Start(c) if c == "a:Key x=\"1\""));
    assert!(matches!(&ev[2], XmlEvent::End(n) if n == "a:Key"));
    let page = parse_list_response("<r><s:Key id=\"7\">k1</s:Key><Key\tz=\"\">k2</Key></r>");
    assert_eq!(page.keys, vec!["k1", "k2"]);
    let id = parse_upload_id("<R><UploadId a=\"b\">u</UploadId></R>");
    assert_eq!(id.unwrap(), "u");
}
