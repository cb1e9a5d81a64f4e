use ossutil::common::{
    batch_result, check_upload_request, classify_entry, docker_remote_path, is_skip_file, normalize_remote_dir,
    remote_object_path, result_report, single_upload_path, success_count, EntryAction, UploadResult,
};
use ossutil::config::{merge_config, Config, EnvSettings};
use ossutil::multipart::{
    collect_etags, count_completed, fresh_completed, multipart_failure_message, pending_parts, plan_resume,
    record_part, resumed_bytes, retry_delay_secs, total_parts, uses_multipart, PartTask, ResumePlan,
    UploadCheckpoint, MULTIPART_THRESHOLD, PART_SIZE,
};
use ossutil::transfer::{
    checkpoint_file_name, checkpoint_name_for_hash, complete_multipart_body, complete_request, escape_xml_text, etag_from_header,
    initiate_request, part_request, simple_upload_headers, upload_id_query,
};
use ossutil::error::OssError;
use base64::Engine;
use sha1::Digest;

const MIB: u64 = 1024 * 1024;

#[test]
fn threshold_and_part_counts() {
    assert!(!uses_multipart(5 * MIB - 1));
    assert!(uses_multipart(5 * MIB));
    assert_eq!(MULTIPART_THRESHOLD, 5 * MIB);
    assert_eq!(PART_SIZE, 10 * MIB);
    assert_eq!(total_parts(0), 0);
    assert_eq!(total_parts(1), 1);
    assert_eq!(total_parts(10 * MIB), 1);
    assert_eq!(total_parts(10 * MIB + 1), 2);
    assert_eq!(total_parts(25 * MIB), 3);
}

#[test]
fn parts_cover_the_file() {
    let size = 25 * MIB + 7;
    let completed = fresh_completed(size);
    assert_eq!(completed.len(), 3);
    let parts = pending_parts(&completed, size);
    assert_eq!(
        parts,
        vec![
            PartTask { part_number: 1, offset: 0, size: 10 * MIB },
            PartTask { part_number: 2, offset: 10 * MIB, size: 10 * MIB },
            PartTask { part_number: 3, offset: 20 * MIB, size: 5 * MIB + 7 },
        ]
    );
    assert_eq!(parts.iter().map(|p| p.size).sum::<u64>(), size);
}

#[test]
fn resume_skips_completed_parts() {
    let size = 25 * MIB;
    let mut completed = fresh_completed(size);
    record_part(&mut completed, 2, "etag-2".to_string());
    record_part(&mut completed, 3, "etag-3".to_string());
    assert_eq!(count_completed(&completed), 2);
    assert_eq!(resumed_bytes(&completed, size), 15 * MIB);
    let pending = pending_parts(&completed, size);
    assert_eq!(pending, vec![PartTask { part_number: 1, offset: 0, size: 10 * MIB }]);
    assert_eq!(resumed_bytes(&completed, size) + pending.iter().map(|p| p.size).sum::<u64>(), size);
    assert_eq!(
        multipart_failure_message(&completed, 3),
        "部分分片上传失败 (2/3 已完成), 再次执行命令可从断点恢复"
    );
    record_part(&mut completed, 1, "etag-1".to_string());
    assert_eq!(collect_etags(&completed), vec!["etag-1", "etag-2", "etag-3"]);
}

#[test]
fn resume_plans() {
    let cp = UploadCheckpoint {
        upload_id: "U1".to_string(),
        remote_path: "r".to_string(),
        local_path: "l".to_string(),
        file_size: 12 * MIB,
        total_parts: 2,
        completed_parts: vec![Some("e1".to_string()), None],
    };
    assert!(cp.can_resume("r", "l", 12 * MIB));
    assert!(!cp.can_resume("r", "l", 13 * MIB));
    assert!(!cp.can_resume("r2", "l", 12 * MIB));
    match plan_resume(Some(cp.clone()), "r", "l", 12 * MIB) {
        ResumePlan::Resume { upload_id, completed, resumed } => {
            assert_eq!(upload_id, "U1");
            assert_eq!(completed, vec![Some("e1".to_string()), None]);
            assert_eq!(resumed, 10 * MIB);
        }
        _ => panic!("expected resume"),
    }
    match plan_resume(Some(cp), "other", "l", 12 * MIB) {
        ResumePlan::Restart { stale_upload_id } => assert_eq!(stale_upload_id, "U1"),
        _ => panic!("expected restart"),
    }
    assert!(matches!(plan_resume(None, "r", "l", 1), ResumePlan::Fresh));
}

#[test]
fn retry_delays() {
    assert_eq!(retry_delay_secs(1), Some(1));
    assert_eq!(retry_delay_secs(2), Some(2));
    assert_eq!(retry_delay_secs(3), None);
}

#[test]
fn request_parts() {
    let h = simple_upload_headers("application/zip", 1234).unwrap();
    assert_eq!(
        *h.pairs(),
        vec![
            ("content-type".to_string(), "application/zip".to_string()),
            ("content-length".to_string(), "1234".to_string())
        ]
    );
    match simple_upload_headers("bad\u{7f}", 1) {
        Err(OssError::Other(m)) => assert_eq!(m, "invalid content-type: failed to parse header value"),
        _ => panic!("expected an error"),
    }
    let (q, h) = initiate_request("image/png").unwrap();
    assert_eq!(*q.pairs(), vec![("uploads".to_string(), String::new())]);
    assert_eq!(*h.pairs(), vec![("content-type".to_string(), "image/png".to_string())]);
    let (q, h) = part_request(7, "UPL", 42);
    assert_eq!(
        *q.pairs(),
        vec![("partNumber".to_string(), "7".to_string()), ("uploadId".to_string(), "UPL".to_string())]
    );
    assert_eq!(*h.pairs(), vec![("content-length".to_string(), "42".to_string())]);
    assert_eq!(*upload_id_query("X").pairs(), vec![("uploadId".to_string(), "X".to_string())]);
    let (_, h) = complete_request("X", "é");
    assert_eq!(h.pairs()[1], ("content-length".to_string(), "2".to_string()));
}

#[test]
fn etags() {
    assert_eq!(etag_from_header(Some("\"abc\"")).unwrap(), "abc");
    assert_eq!(etag_from_header(Some("abc")).unwrap(), "abc");
    match etag_from_header(None) {
        Err(OssError::Other(m)) => assert_eq!(m, "分片上传响应中未找到 ETag"),
        _ => panic!("expected an error"),
    }
    assert!(etag_from_header(Some("\"\"")).is_err());
}

#[test]
fn completion_body() {
    let esc: String = escape_xml_text("a&b<c>\"d").into_iter().collect();
    assert_eq!(esc, "a&amp;b&lt;c&gt;&quot;d");
    let body = complete_multipart_body(&vec!["e1".to_string(), "x&y".to_string()]);
    assert_eq!(
        body,
        "<?xml version=\"1.0\" encoding=\"UTF-8\"?><CompleteMultipartUpload><Part><PartNumber>1</PartNumber><ETag>\"e1\"</ETag></Part><Part><PartNumber>2</PartNumber><ETag>\"x&amp;y\"</ETag></Part></CompleteMultipartUpload>"
    );
}

#[test]
fn checkpoint_names() {
    let expected = format!(
        "{}.checkpoint",
        base64::engine::general_purpose::URL_SAFE_NO_PAD.encode(sha1::Sha1::digest(b"docker/a.zip|/tmp/a.zip"))
    );
    assert_eq!(checkpoint_file_name("docker/a.zip", "/tmp/a.zip"), expected);
    assert_eq!(checkpoint_name_for_hash("abc"), "abc.checkpoint");
}

#[test]
fn remote_paths() {
    assert_eq!(normalize_remote_dir("a/b"), "a/b/");
    assert_eq!(normalize_remote_dir("a/b/"), "a/b/");
    assert_eq!(normalize_remote_dir(""), "/");
    assert_eq!(remote_object_path("test-upload/test", "f.zip"), "test-upload/test/f.zip");
    assert_eq!(single_upload_path("dir", Some("new.bin"), "old.bin"), "dir/new.bin");
    assert_eq!(single_upload_path("dir/", None, "old.bin"), "dir/old.bin");
    assert_eq!(docker_remote_path("20260525143012", "app.tar.gz"), "docker/20260525143012/app.tar.gz");
}

#[test]
fn directory_entries() {
    assert!(is_skip_file(Some(".DS_Store")));
    assert!(is_skip_file(Some("Thumbs.db")));
    assert!(!is_skip_file(Some("thumbs.db")));
    assert!(!is_skip_file(None));
    assert_eq!(classify_entry(true, Some("d"), true), EntryAction::SkipDirectory);
    assert_eq!(classify_entry(true, Some("d"), false), EntryAction::RejectDirectory);
    assert_eq!(classify_entry(false, Some(".DS_Store"), false), EntryAction::SkipFile);
    assert_eq!(classify_entry(false, Some("a.txt"), false), EntryAction::Keep);
}

#[test]
fn upload_requests() {
    assert_eq!(check_upload_request(0, false), Err("没有可上传的文件".to_string()));
    assert_eq!(check_upload_request(2, true), Err("--name 参数仅在上传单个文件时有效".to_string()));
    assert_eq!(check_upload_request(1, true), Ok(true));
    assert_eq!(check_upload_request(3, false), Ok(false));
}

fn result(name: &str, size: u64, url: Option<&str>, err: Option<&str>) -> UploadResult {
    UploadResult {
        filename: name.to_string(),
        file_size: size,
        is_multipart: size >= MULTIPART_THRESHOLD,
        download_url: url.map(|s| s.to_string()),
        error: err.map(|s| s.to_string()),
    }
}

#[test]
fn batch_reports() {
    let ok = result("app.tar.gz", 13_107_200, Some("https://cdn/docker/t/app.tar.gz"), None);
    let bad = result("config.json", 2150, None, Some("boom"));
    assert_eq!(
        result_report(0, 3, &ok),
        vec![
            "  [1/3] app.tar.gz (12.5 MB) ... ✅ 成功 (分片上传)".to_string(),
            "         下载: https://cdn/docker/t/app.tar.gz".to_string()
        ]
    );
    assert_eq!(
        result_report(1, 3, &bad),
        vec!["  [2/3] config.json (2.1 KB) ... ❌ 失败".to_string(), "         错误: boom".to_string()]
    );
    let all = vec![ok.clone(), bad.clone(), ok.clone()];
    assert_eq!(success_count(&all), 2);
    assert_eq!(batch_result(&all), Err("部分文件上传失败: 1/3".to_string()));
    assert_eq!(batch_result(&vec![bad.clone()]), Err("所有文件上传失败".to_string()));
    assert_eq!(batch_result(&vec![ok.clone(), ok]), Ok(()));
}

fn env() -> EnvSettings {
    EnvSettings {
        endpoint: None,
        bucket_name: None,
        access_key_id: None,
        access_key_secret: None,
        region: None,
        cdn_domain: None,
        path_prefix: None,
    }
}

#[test]
fn config_merging() {
    let file = Config {
        endpoint: "oss-cn-hangzhou.aliyuncs.com".to_string(),
        bucket_name: "file-bucket".to_string(),
        access_key_id: "id".to_string(),
        access_key_secret: "secret".to_string(),
        region: None,
        cdn_domain: Some("https://cdn".to_string()),
        path_prefix: None,
    };
    let mut e = env();
    e.bucket_name = Some("env-bucket".to_string());
    e.region = Some("cn-x".to_string());
    let c = merge_config(e, Some(file.clone())).unwrap();
    assert_eq!(c.bucket_name, "env-bucket");
    assert_eq!(c.endpoint, "oss-cn-hangzhou.aliyuncs.com");
    assert_eq!(c.region, Some("cn-x".to_string()));
    assert_eq!(c.cdn_domain, Some("https://cdn".to_string()));
    assert_eq!(merge_config(env(), None).unwrap_err(), "未设置 OSS_ENDPOINT，请先运行 config 命令");
    let mut e = env();
    e.endpoint = Some("x.y".to_string());
    e.bucket_name = Some("b".to_string());
    e.access_key_id = Some("i".to_string());
    assert_eq!(merge_config(e, None).unwrap_err(), "未设置 OSS_ACCESS_KEY_SECRET，请先运行 config 命令");
}
