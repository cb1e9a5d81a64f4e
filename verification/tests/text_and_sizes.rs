use ossutil::common::format_file_size;
use ossutil::mime::guess_content_type;
use ossutil::text::is_whitespace_char;

fn float_text(bytes: u64) -> String {
    const KB: u64 = 1024;
    const MB: u64 = 1024 * KB;
    const GB: u64 = 1024 * MB;
    if bytes >= GB {
        format!("{:.1} GB", bytes as f64 / GB as f64)
    } else if bytes >= MB {
        format!("{:.1} MB", bytes as f64 / MB as f64)
    } else if bytes >= KB {
        format!("{:.1} KB", bytes as f64 / KB as f64)
    } else {
        format!("{} B", bytes)
    }
}

#[test]
fn file_size_examples() {
    assert_eq!(format_file_size(0), "0 B");
    assert_eq!(format_file_size(1023), "1023 B");
    assert_eq!(format_file_size(1024), "1.0 KB");
    assert_eq!(format_file_size(1536), "1.5 KB");
    assert_eq!(format_file_size(2150), "2.1 KB");
    assert_eq!(format_file_size(13_107_200), "12.5 MB");
    assert_eq!(format_file_size(47_500_000), "45.3 MB");
    assert_eq!(format_file_size(5 * 1024 * 1024 * 1024), "5.0 GB");
}

#[test]
fn file_size_matches_float_formatting() {
    let mut values: Vec<u64> = Vec::new();
    for b in 0..5000u64 {
        values.push(b);
    }
    for k in 0..4096u64 {
        values.push(1024 * k + 256);
        values.push(1024 * k + 768);
        values.push(1048576 * k + 262144);
        values.push(1048576 * k + 786432);
        values.push(1048576 * k + 104857);
    }
    for s in 0..64u32 {
        let p = 1u64 << s;
        values.push(p);
        values.push(p - 1);
        values.push(p.wrapping_add(1));
        values.push(p | (p >> 1));
        values.push(p | (p >> 2) | 1);
    }
    let mut x: u64 = 0x9E37_79B9_7F4A_7C15;
    for _ in 0..20000 {
        x ^= x << 13;
        x ^= x >> 7;
        x ^= x << 17;
        values.push(x);
        values.push(x >> 20);
        values.push(x >> 35);
    }
    values.push(u64::MAX);
    values.push(u64::MAX - 1024);
    values.push((1u64 << 53) + 1);
    values.push((1u64 << 53) + 3);
    values.push((1u64 << 54) + 2);
    values.push((1u64 << 54) + 6);
    for v in values {
        assert_eq!(format_file_size(v), float_text(v), "bytes = {}", v);
    }
}

#[test]
fn whitespace_matches_std() {
    for u in 0u32..=0x10FFFF {
        if let Some(c) = char::from_u32(u) {
            assert_eq!(is_whitespace_char(c), c.is_whitespace(), "U+{:04X}", u);
        }
    }
}

#[test]
fn content_types() {
    assert_eq!(guess_content_type("app.tar.gz"), "application/gzip");
    assert_eq!(guess_content_type("APP.TGZ"), "application/gzip");
    assert_eq!(guess_content_type("image.ZIP"), "application/zip");
    assert_eq!(guess_content_type("x.tar"), "application/x-tar");
    assert_eq!(guess_content_type("x.gz"), "application/gzip");
    assert_eq!(guess_content_type("config.json"), "application/json");
    assert_eq!(guess_content_type("a.xml"), "application/xml");
    assert_eq!(guess_content_type("index.htm"), "text/html");
    assert_eq!(guess_content_type("index.HTML"), "text/html");
    assert_eq!(guess_content_type("s.css"), "text/css");
    assert_eq!(guess_content_type("s.js"), "application/javascript");
    assert_eq!(guess_content_type("p.png"), "image/png");
    assert_eq!(guess_content_type("p.JPEG"), "image/jpeg");
    assert_eq!(guess_content_type("p.jpg"), "image/jpeg");
    assert_eq!(guess_content_type("p.gif"), "image/gif");
    assert_eq!(guess_content_type("p.svg"), "image/svg+xml");
    assert_eq!(guess_content_type("d.pdf"), "application/pdf");
    assert_eq!(guess_content_type("setup.exe"), "application/x-msdownload");
    assert_eq!(guess_content_type("a.dmg"), "application/x-apple-diskimage");
    assert_eq!(guess_content_type("a.deb"), "application/x-debian-package");
    assert_eq!(guess_content_type("a.rpm"), "application/x-rpm");
    assert_eq!(guess_content_type("README"), "application/octet-stream");
    assert_eq!(guess_content_type("zip"), "application/octet-stream");
}

#[test]
fn content_type_agrees_with_unicode_lowercase() {
    let names = ["A.ZİP", "b.\u{212A}ip", "C.TAR.GZ", "ÄÖ.PNG", "x.JSON", "file.Zip", "ß.GiF"];
    let exts = [
        ".zip", ".tar.gz", ".tgz", ".tar", ".gz", ".json", ".xml", ".html", ".htm", ".css", ".js", ".png", ".jpg",
        ".jpeg", ".gif", ".svg", ".pdf", ".exe", ".dmg", ".deb", ".rpm",
    ];
    for n in names {
        let lower = n.to_lowercase();
        let ascii = n.to_ascii_lowercase();
        for e in exts {
            assert_eq!(lower.ends_with(e), ascii.ends_with(e), "{} {}", n, e);
        }
    }
}

#[test]
fn content_type_depends_only_on_the_extension() {
    let listed = [
        (".zip", "application/zip"), (".tar.gz", "application/gzip"), (".tgz", "application/gzip"),
        (".tar", "application/x-tar"), (".gz", "application/gzip"), (".json", "application/json"),
        (".xml", "application/xml"), (".html", "text/html"), (".htm", "text/html"), (".css", "text/css"),
        (".js", "application/javascript"), (".png", "image/png"), (".jpg", "image/jpeg"),
        (".jpeg", "image/jpeg"), (".gif", "image/gif"), (".svg", "image/svg+xml"),
        (".pdf", "application/pdf"), (".exe", "application/x-msdownload"),
        (".dmg", "application/x-apple-diskimage"), (".deb", "application/x-debian-package"),
        (".rpm", "application/x-rpm"),
    ];
    for stem in ["", "a", "dir/file", "x.tar", "archive.zip.", "my.json.bak"] {
        for (ext, ty) in listed.iter() {
            assert_eq!(guess_content_type(&format!("{}{}", stem, ext)), *ty);
            assert_eq!(guess_content_type(&format!("{}{}", stem, ext.to_uppercase())), *ty);
        }
    }
}
