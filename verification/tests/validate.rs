use ossutil::validate::{get_region_from_endpoint, validate_bucket_name, validate_endpoint, validate_object_key};

#[test]
fn test_validate_bucket_name() {
    assert!(validate_bucket_name("my-bucket"));
    assert!(validate_bucket_name("abc"));
    assert!(validate_bucket_name("test-bucket-123"));
    assert!(!validate_bucket_name("ab")); // too short
    assert!(!validate_bucket_name("-bucket")); // starts with hyphen
    assert!(!validate_bucket_name("bucket-")); // ends with hyphen
    assert!(!validate_bucket_name("My-Bucket")); // uppercase
    assert!(!validate_bucket_name("my_bucket")); // underscore
}

#[test]
fn test_validate_object_key() {
    assert!(validate_object_key("file.txt"));
    assert!(validate_object_key("dir/file.txt"));
    assert!(validate_object_key("a/b/c/d.zip"));
    assert!(!validate_object_key("")); // empty
    assert!(!validate_object_key("/file.txt")); // starts with /
    assert!(!validate_object_key("dir/")); // ends with /
}

#[test]
fn test_get_region_from_endpoint() {
    assert_eq!(
        get_region_from_endpoint("oss-cn-hangzhou.aliyuncs.com"),
        Some("cn-hangzhou".to_string())
    );
    assert_eq!(
        get_region_from_endpoint("oss-cn-beijing.aliyuncs.com"),
        Some("cn-beijing".to_string())
    );
    assert_eq!(
        get_region_from_endpoint("https://oss-ap-southeast-1.aliyuncs.com"),
        Some("ap-southeast-1".to_string())
    );
    assert_eq!(get_region_from_endpoint("no-dot"), None);
}

#[test]
fn test_validate_endpoint() {
    assert!(validate_endpoint("oss-cn-hangzhou.aliyuncs.com"));
    assert!(validate_endpoint("https://oss-cn-hangzhou.aliyuncs.com"));
    assert!(!validate_endpoint(""));
    assert!(!validate_endpoint("no-dot"));
    assert!(!validate_endpoint(".starts-with-dot.com"));
}

#[test]
fn bucket_name_length_is_counted_in_bytes() {
    assert!(validate_bucket_name(&"a".repeat(63)));
    assert!(!validate_bucket_name(&"a".repeat(64)));
    assert!(!validate_bucket_name("ab\u{e9}"));
    assert!(!validate_bucket_name("buck.et"));
}

#[test]
fn object_key_rules() {
    assert!(!validate_object_key("\\file"));
    assert!(!validate_object_key("file\\"));
    assert!(validate_object_key(&"k".repeat(1023)));
    assert!(!validate_object_key(&"k".repeat(1024)));
    // The limit counts characters, not bytes.
    assert!(validate_object_key(&"\u{4e2d}".repeat(400)));
    assert!(validate_object_key(&"\u{e9}".repeat(1023)));
    assert!(!validate_object_key(&"\u{e9}".repeat(1024)));
}

#[test]
fn region_removes_every_oss_marker_and_handles_http() {
    assert_eq!(get_region_from_endpoint("http://oss-eu-central-1.aliyuncs.com"), Some("eu-central-1".to_string()));
    assert_eq!(get_region_from_endpoint("oss-oss-x.y"), Some("x".to_string()));
    assert_eq!(get_region_from_endpoint("cn-shanghai.example.com"), Some("cn-shanghai".to_string()));
    assert_eq!(get_region_from_endpoint("https://no-dot"), None);
    assert_eq!(get_region_from_endpoint(".leading"), Some("".to_string()));
}

#[test]
fn endpoint_rules() {
    assert!(!validate_endpoint("ends-with-dot."));
    assert!(!validate_endpoint("http://"));
    assert!(validate_endpoint("http://a.b"));
    assert!(!validate_endpoint("https://.a.b"));
}
