//! Helpers shared by the upload commands: human-readable sizes, remote paths,
//! files skipped when expanding directories, and the summary of a batch.

use vstd::prelude::*;
use vstd::string::StringExecFns;
use crate::text::{chars_of, decimal, decimal_chars, digit_char, ends_with, extend_chars, extend_str, has_suffix, string_of};

verus! {

pub const KB: u64 = 1024;
pub const MB: u64 = 1048576;
pub const GB: u64 = 1073741824;

/// `b` rounded to a multiple of `p` (a power of two), halfway cases going
/// to the even multiple.
pub open spec fn round_scaled(b: nat, p: nat) -> nat {
    let q = b / p;
    let r = b % p;
    if p <= 1 {
        b
    } else if 2 * r > p || (2 * r == p && q % 2 == 1) {
        (q + 1) * p
    } else {
        q * p
    }
}

/// The value of `b as f64`: the nearest number with 53 significant bits,
/// halfway cases going to the even one.
pub open spec fn as_f64_value(b: nat) -> nat {
    if b < 0x20000000000000 {
        b
    } else if b < 0x40000000000000 {
        round_scaled(b, 2)
    } else if b < 0x80000000000000 {
        round_scaled(b, 4)
    } else if b < 0x100000000000000 {
        round_scaled(b, 8)
    } else if b < 0x200000000000000 {
        round_scaled(b, 16)
    } else if b < 0x400000000000000 {
        round_scaled(b, 32)
    } else if b < 0x800000000000000 {
        round_scaled(b, 64)
    } else if b < 0x1000000000000000 {
        round_scaled(b, 128)
    } else if b < 0x2000000000000000 {
        round_scaled(b, 256)
    } else if b < 0x4000000000000000 {
        round_scaled(b, 512)
    } else if b < 0x8000000000000000 {
        round_scaled(b, 1024)
    } else {
        round_scaled(b, 2048)
    }
}

/// Tenths of `num / unit`, rounded to nearest with halfway cases to even.
pub open spec fn rounded_tenths(num: nat, unit: nat) -> nat {
    let t = (num * 10) / unit;
    let r = (num * 10) % unit;
    if 2 * r > unit || (2 * r == unit && t % 2 == 1) {
        t + 1
    } else {
        t
    }
}

/// A number of tenths written with one decimal place.
pub open spec fn one_decimal(tenths: nat) -> Seq<char> {
    decimal(tenths / 10) + "."@ + seq![digit_char(tenths % 10)]
}

/// `format_file_size`: below 1 KiB the exact count of bytes, else the size
/// in GB, MB or KB (powers of 1024) with one decimal, as `{:.1}` prints the
/// quotient of the two `f64` values.
pub open spec fn file_size_text(bytes: nat) -> Seq<char> {
    if bytes >= GB {
        one_decimal(rounded_tenths(as_f64_value(bytes), GB as nat)) + " GB"@
    } else if bytes >= MB {
        one_decimal(rounded_tenths(bytes, MB as nat)) + " MB"@
    } else if bytes >= KB {
        one_decimal(rounded_tenths(bytes, KB as nat)) + " KB"@
    } else {
        decimal(bytes) + " B"@
    }
}

fn round_scaled_exec(b: u64, p: u64) -> (r: u128)
    requires
        1 <= p <= 2048,
    ensures
        r == round_scaled(b as nat, p as nat),
{
    if p <= 1 {
        return b as u128;
    }
    let q = b / p;
    let r = b % p;
    assert((q as int + 1) * (p as int) <= 0x10000000000000000 * 2048 && (q as int) * (p as int) <= (q as int
        + 1) * (p as int)) by (nonlinear_arith)
        requires
            q as int <= 0xFFFFFFFFFFFFFFFF,
            1 <= p <= 2048,
    ;
    if 2 * r > p || (2 * r == p && q % 2 == 1) {
        (q as u128 + 1) * (p as u128)
    } else {
        (q as u128) * (p as u128)
    }
}

fn as_f64_exec(b: u64) -> (r: u128)
    ensures
        r == as_f64_value(b as nat),
{
    let p: u64 = if b < 0x20000000000000 {
        1
    } else if b < 0x40000000000000 {
        2
    } else if b < 0x80000000000000 {
        4
    } else if b < 0x100000000000000 {
        8
    } else if b < 0x200000000000000 {
        16
    } else if b < 0x400000000000000 {
        32
    } else if b < 0x800000000000000 {
        64
    } else if b < 0x1000000000000000 {
        128
    } else if b < 0x2000000000000000 {
        256
    } else if b < 0x4000000000000000 {
        512
    } else if b < 0x8000000000000000 {
        1024
    } else {
        2048
    };
    round_scaled_exec(b, p)
}

fn tenths_exec(num: u128, unit: u128) -> (r: u64)
    requires
        num <= 0x10000000000000000,
        1024 <= unit <= GB,
    ensures
        r == rounded_tenths(num as nat, unit as nat),
{
    let n10 = num * 10;
    let t = n10 / unit;
    let r = n10 % unit;
    assert(t as int <= 0xA00000000000000000int / 1024) by (nonlinear_arith)
        requires
            t as int == n10 as int / unit as int,
            n10 <= 0xA00000000000000000int,
            unit >= 1024,
    ;
    assert(r < unit);
    if 2 * r > unit || (2 * r == unit && t % 2 == 1) {
        (t + 1) as u64
    } else {
        t as u64
    }
}

fn one_decimal_exec(tenths: u64) -> (r: Vec<char>)
    ensures
        r@ == one_decimal(tenths as nat),
{
    let mut out = decimal_chars(tenths / 10);
    out.push('.');
    let d = (tenths % 10) as u8;
    out.push((48u8 + d) as char);
    proof {
        reveal_strlit(".");
    }
    assert(out@ =~= one_decimal(tenths as nat));
    out
}

/// Formats a size in bytes for display, e.g. `512 B`, `1.5 KB`, `12.5 MB`.
pub fn format_file_size(bytes: u64) -> (r: String)
    ensures
        r@ == file_size_text(bytes as nat),
{
    let mut out: Vec<char>;
    if bytes >= GB {
        let v = as_f64_exec(bytes);
        assert(v <= 0x10000000000000000) by {
            assert(as_f64_value(bytes as nat) <= 0x10000000000000000);
        }
        out = one_decimal_exec(tenths_exec(v, GB as u128));
        extend_str(&mut out, " GB");
    } else if bytes >= MB {
        out = one_decimal_exec(tenths_exec(bytes as u128, MB as u128));
        extend_str(&mut out, " MB");
    } else if bytes >= KB {
        out = one_decimal_exec(tenths_exec(bytes as u128, KB as u128));
        extend_str(&mut out, " KB");
    } else {
        out = decimal_chars(bytes);
        extend_str(&mut out, " B");
    }
    string_of(&out)
}

} // verus!

verus! {

/// Outcome of uploading one file of a batch.
#[derive(Clone, Debug)]
pub struct UploadResult {
    pub filename: String,
    pub file_size: u64,
    pub is_multipart: bool,
    pub download_url: Option<String>,
    pub error: Option<String>,
}

/// A remote directory with exactly one `/` added when it lacks a trailing one.
pub open spec fn remote_dir(remote: Seq<char>) -> Seq<char> {
    if has_suffix(remote, "/"@) {
        remote
    } else {
        remote + "/"@
    }
}

/// Makes sure a remote directory path ends with `/`.
pub fn normalize_remote_dir(remote: &str) -> (r: String)
    ensures
        r@ == remote_dir(remote@),
{
    let rc = chars_of(remote);
    let slash = chars_of("/");
    if ends_with(&rc, &slash) {
        String::from_str(remote)
    } else {
        let mut out = rc;
        extend_chars(&mut out, &slash);
        string_of(&out)
    }
}

/// A normalized directory ends with `/`, and normalizing it again changes
/// nothing.
pub proof fn lemma_remote_dir_idempotent(remote: Seq<char>)
    ensures
        has_suffix(remote_dir(remote), "/"@),
        remote_dir(remote_dir(remote)) == remote_dir(remote),
{
    reveal_strlit("/");
    let d = remote_dir(remote);
    if !has_suffix(remote, "/"@) {
        assert(d.subrange(d.len() - 1, d.len() as int) =~= "/"@);
    }
}

/// The object key of a file uploaded into a directory: the normalized
/// directory followed by the name.
pub fn remote_object_path(remote_dir_path: &str, file_name: &str) -> (r: String)
    ensures
        r@ == remote_dir(remote_dir_path@) + file_name@,
{
    let dir = normalize_remote_dir(remote_dir_path);
    let mut out = chars_of(dir.as_str());
    extend_str(&mut out, file_name);
    string_of(&out)
}

/// The object key of a single upload: the given new name if any, else the
/// local file name, inside the remote directory.
pub fn single_upload_path(remote_dir_path: &str, rename: Option<&str>, file_name: &str) -> (r: String)
    ensures
        r@ == remote_dir(remote_dir_path@) + match rename {
            Some(n) => n@,
            None => file_name@,
        },
{
    match rename {
        Some(n) => remote_object_path(remote_dir_path, n),
        None => remote_object_path(remote_dir_path, file_name),
    }
}

/// `docker/{timestamp}/{filename}`.
pub open spec fn docker_path(timestamp: Seq<char>, filename: Seq<char>) -> Seq<char> {
    "docker/"@ + timestamp + "/"@ + filename
}

/// The object key of a file in a Docker upload batch.
pub fn docker_remote_path(timestamp: &str, filename: &str) -> (r: String)
    ensures
        r@ == docker_path(timestamp@, filename@),
{
    let mut out = chars_of("docker/");
    extend_str(&mut out, timestamp);
    extend_str(&mut out, "/");
    extend_str(&mut out, filename);
    string_of(&out)
}

/// System files never uploaded from a directory: `.DS_Store` and `Thumbs.db`.
pub open spec fn is_skipped_name(name: Seq<char>) -> bool {
    name == ".DS_Store"@ || name == "Thumbs.db"@
}

/// Whether a file (by its name, when it has a valid one) is skipped.
pub fn is_skip_file(file_name: Option<&str>) -> (r: bool)
    ensures
        r == match file_name {
            Some(n) => is_skipped_name(n@),
            None => false,
        },
{
    match file_name {
        Some(n) => crate::text::str_eq(n, ".DS_Store") || crate::text::str_eq(n, "Thumbs.db"),
        None => false,
    }
}

/// What to do with one entry found inside a directory being expanded.
#[derive(Clone, Copy, Debug, PartialEq, Eq)]
pub enum EntryAction {
    /// Upload it.
    Keep,
    /// A sub-directory, skipped with a warning.
    SkipDirectory,
    /// A sub-directory while sub-directories are not allowed: stop with an error.
    RejectDirectory,
    /// A system file, skipped silently.
    SkipFile,
}

/// Decides what happens to an entry of an expanded directory.
pub fn classify_entry(is_dir: bool, file_name: Option<&str>, skip_dir: bool) -> (r: EntryAction)
    ensures
        is_dir && skip_dir ==> r == EntryAction::SkipDirectory,
        is_dir && !skip_dir ==> r == EntryAction::RejectDirectory,
        !is_dir ==> r == if (match file_name {
            Some(n) => is_skipped_name(n@),
            None => false,
        }) {
            EntryAction::SkipFile
        } else {
            EntryAction::Keep
        },
{
    if is_dir {
        if skip_dir {
            EntryAction::SkipDirectory
        } else {
            EntryAction::RejectDirectory
        }
    } else if is_skip_file(file_name) {
        EntryAction::SkipFile
    } else {
        EntryAction::Keep
    }
}

/// How the upload command proceeds for a number of files.
pub open spec fn upload_shape(file_count: nat, has_rename: bool) -> Result<bool, Seq<char>> {
    if file_count == 0 {
        Err("没有可上传的文件"@)
    } else if has_rename && file_count > 1 {
        Err("--name 参数仅在上传单个文件时有效"@)
    } else {
        Ok(file_count == 1)
    }
}

/// Checks the file list of an upload: at least one file, and a new name only
/// for a single file. `Ok(true)` means a single-file upload.
pub fn check_upload_request(file_count: usize, has_rename: bool) -> (r: Result<bool, String>)
    ensures
        match (r, upload_shape(file_count as nat, has_rename)) {
            (Ok(a), Ok(b)) => a == b,
            (Err(a), Err(b)) => a@ == b,
            _ => false,
        },
{
    if file_count == 0 {
        Err(String::from_str("没有可上传的文件"))
    } else if has_rename && file_count > 1 {
        Err(String::from_str("--name 参数仅在上传单个文件时有效"))
    } else {
        Ok(file_count == 1)
    }
}

/// Number of results with a download URL.
pub open spec fn successes(results: Seq<UploadResult>) -> nat
    decreases results.len(),
{
    if results.len() == 0 {
        0
    } else {
        successes(results.drop_last()) + if results.last().download_url is Some {
            1nat
        } else {
            0nat
        }
    }
}

proof fn lemma_successes_bound(results: Seq<UploadResult>)
    ensures
        successes(results) <= results.len(),
    decreases results.len(),
{
    if results.len() > 0 {
        lemma_successes_bound(results.drop_last());
    }
}

/// Counts the successful uploads.
pub fn success_count(results: &Vec<UploadResult>) -> (r: usize)
    ensures
        r == successes(results@),
        r <= results@.len(),
{
    let mut n: usize = 0;
    let mut i: usize = 0;
    while i < results.len()
        invariant
            i <= results.len(),
            n == successes(results@.take(i as int)),
            n <= i,
        decreases results.len() - i,
    {
        assert(results@.take(i + 1).drop_last() =~= results@.take(i as int));
        if results[i].download_url.is_some() {
            n = n + 1;
        }
        i = i + 1;
    }
    assert(results@.take(results.len() as int) =~= results@);
    n
}

/// The outcome of a batch: an error when every upload failed, another when
/// some failed (`{failed}/{total}`), success when all succeeded.
pub open spec fn batch_outcome(succeeded: nat, total: nat) -> Result<(), Seq<char>> {
    if succeeded == 0 {
        Err("所有文件上传失败"@)
    } else if succeeded < total {
        Err("部分文件上传失败: "@ + decimal((total - succeeded) as nat) + "/"@ + decimal(total))
    } else {
        Ok(())
    }
}

/// The result of a batch of uploads.
pub fn batch_result(results: &Vec<UploadResult>) -> (r: Result<(), String>)
    ensures
        match (r, batch_outcome(successes(results@), results@.len())) {
            (Ok(_), Ok(_)) => true,
            (Err(a), Err(b)) => a@ == b,
            _ => false,
        },
{
    let ok = success_count(results);
    let total = results.len();
    if ok == 0 {
        Err(String::from_str("所有文件上传失败"))
    } else if ok < total {
        let mut out = chars_of("部分文件上传失败: ");
        let f = decimal_chars((total - ok) as u64);
        extend_chars(&mut out, &f);
        extend_str(&mut out, "/");
        let t = decimal_chars(total as u64);
        extend_chars(&mut out, &t);
        Err(string_of(&out))
    } else {
        Ok(())
    }
}

/// The report lines of one result: `  [{n}/{total}] {name} ({size}) ... ✅ 成功`
/// or `... ❌ 失败`, with ` (分片上传)` for multipart uploads, followed by the
/// download URL or the error when there is one.
pub open spec fn report_lines(index: nat, total: nat, r: UploadResult) -> Seq<Seq<char>> {
    let head = "  ["@ + decimal(index + 1) + "/"@ + decimal(total) + "] "@ + r.filename@ + " ("@ + file_size_text(
        r.file_size as nat,
    ) + ") ... "@ + if r.download_url is Some {
        "✅ 成功"@
    } else {
        "❌ 失败"@
    } + if r.is_multipart {
        " (分片上传)"@
    } else {
        Seq::empty()
    };
    match r.download_url {
        Some(u) => seq![head, "         下载: "@ + u@],
        None => match r.error {
            Some(e) => seq![head, "         错误: "@ + e@],
            None => seq![head],
        },
    }
}

/// The lines printed for result number `index` (from 0) of a batch.
pub fn result_report(index: usize, total: usize, r: &UploadResult) -> (lines: Vec<String>)
    requires
        index < usize::MAX,
    ensures
        lines@.map_values(|s: String| s@) == report_lines(index as nat, total as nat, *r),
{
    let mut head = chars_of("  [");
    extend_chars(&mut head, &decimal_chars((index + 1) as u64));
    extend_str(&mut head, "/");
    extend_chars(&mut head, &decimal_chars(total as u64));
    extend_str(&mut head, "] ");
    extend_str(&mut head, r.filename.as_str());
    extend_str(&mut head, " (");
    let size = format_file_size(r.file_size);
    extend_str(&mut head, size.as_str());
    extend_str(&mut head, ") ... ");
    if r.download_url.is_some() {
        extend_str(&mut head, "✅ 成功");
    } else {
        extend_str(&mut head, "❌ 失败");
    }
    if r.is_multipart {
        extend_str(&mut head, " (分片上传)");
    }
    proof {
        reveal_strlit("");
    }
    let mut lines: Vec<String> = Vec::new();
    lines.push(string_of(&head));
    match &r.download_url {
        Some(u) => {
            let mut l = chars_of("         下载: ");
            extend_str(&mut l, u.as_str());
            lines.push(string_of(&l));
        },
        None => match &r.error {
            Some(e) => {
                let mut l = chars_of("         错误: ");
                extend_str(&mut l, e.as_str());
                lines.push(string_of(&l));
            },
            None => {},
        },
    }
    assert(lines@.map_values(|s: String| s@) =~= report_lines(index as nat, total as nat, *r));
    lines
}

} // verus!
