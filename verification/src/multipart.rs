//! Planning of multipart uploads: how a file is cut into parts, which parts
//! remain after an interrupted upload, and what is sent when all are done.

use vstd::prelude::*;
use crate::text::{chars_of, decimal, decimal_chars, extend_chars, extend_str, str_eq, string_of};

verus! {

/// Files of at least this many bytes are uploaded in parts (5 MiB).
pub const MULTIPART_THRESHOLD: u64 = 5242880;

/// Size of every part but the last (10 MiB).
pub const PART_SIZE: u64 = 10485760;

/// Attempts made for each part before it is given up.
pub const MAX_PART_RETRIES: u32 = 3;

/// Whether a file of this size goes through the multipart path.
pub fn uses_multipart(file_size: u64) -> (r: bool)
    ensures
        r == (file_size >= MULTIPART_THRESHOLD),
{
    file_size >= MULTIPART_THRESHOLD
}

/// Number of parts needed for `file_size` bytes: `ceil(file_size / PART_SIZE)`.
pub open spec fn part_count(file_size: nat) -> nat {
    ((file_size + PART_SIZE - 1) / (PART_SIZE as int)) as nat
}

/// The number of parts as a `u32` (the count taken modulo 2^32).
pub fn total_parts(file_size: u64) -> (n: u32)
    ensures
        n == part_count(file_size as nat) % 0x1_0000_0000,
{
    let q = file_size / PART_SIZE;
    let c = if file_size % PART_SIZE != 0 { q + 1 } else { q };
    assert(c == part_count(file_size as nat));
    (c % 0x1_0000_0000) as u32
}

/// Byte offset at which part `part_number` (counted from 1) starts.
pub open spec fn part_offset(part_number: nat) -> int {
    (part_number - 1) * PART_SIZE
}

/// Length in bytes of part `part_number` of a file of `file_size` bytes.
pub open spec fn part_len(file_size: nat, part_number: nat) -> int {
    let rest = file_size - part_offset(part_number);
    if rest < PART_SIZE {
        rest
    } else {
        PART_SIZE as int
    }
}

/// Sum of the lengths of parts `1..=n`.
pub open spec fn parts_total(file_size: nat, n: nat) -> int
    decreases n,
{
    if n == 0 {
        0
    } else {
        parts_total(file_size, (n - 1) as nat) + part_len(file_size, n)
    }
}

/// The parts before the last run up to a whole number of parts.
proof fn lemma_parts_total_prefix(file_size: nat, n: nat)
    requires
        n <= part_count(file_size),
    ensures
        parts_total(file_size, n) == if n * PART_SIZE <= file_size { n * PART_SIZE } else {
            file_size as int
        },
    decreases n,
{
    if n > 0 {
        lemma_parts_total_prefix(file_size, (n - 1) as nat);
        assert((n - 1) * PART_SIZE < file_size);
    }
}

/// The parts of a file cover it exactly: consecutive, each non-empty and at
/// most `PART_SIZE` bytes, starting at offset 0 and together `file_size` bytes.
pub proof fn lemma_parts_cover_file(file_size: nat)
    ensures
        parts_total(file_size, part_count(file_size)) == file_size,
        forall|pn: nat|
            1 <= pn <= part_count(file_size) ==> 0 < #[trigger] part_len(file_size, pn) <= PART_SIZE,
        forall|pn: nat|
            1 <= pn < part_count(file_size) ==> part_offset(pn + 1) == part_offset(pn) + #[trigger] part_len(
                file_size,
                pn,
            ),
        part_count(file_size) > 0 ==> part_offset(part_count(file_size)) + part_len(
            file_size,
            part_count(file_size),
        ) == file_size,
{
    lemma_parts_total_prefix(file_size, part_count(file_size));
    assert forall|pn: nat| 1 <= pn <= part_count(file_size) implies 0 < #[trigger] part_len(
        file_size,
        pn,
    ) <= PART_SIZE by {
        assert((pn - 1) * PART_SIZE < file_size);
    }
}

/// One part still to be uploaded.
#[derive(Clone, Copy, Debug, PartialEq, Eq)]
pub struct PartTask {
    pub part_number: u32,
    pub offset: u64,
    pub size: u64,
}

/// The task for part `part_number` of a file of `file_size` bytes.
pub open spec fn part_task(file_size: nat, part_number: nat) -> PartTask {
    PartTask {
        part_number: part_number as u32,
        offset: part_offset(part_number) as u64,
        size: part_len(file_size, part_number) as u64,
    }
}

/// Tasks for the parts among `1..=n` that have no ETag yet, in order.
pub open spec fn pending_tasks(completed: Seq<Option<String>>, file_size: nat, n: nat) -> Seq<PartTask>
    decreases n,
{
    if n == 0 {
        Seq::empty()
    } else {
        let before = pending_tasks(completed, file_size, (n - 1) as nat);
        if completed[n - 1] is None {
            before.push(part_task(file_size, n))
        } else {
            before
        }
    }
}

/// Bytes in the parts among the first `n` entries that already have an ETag.
pub open spec fn done_bytes(completed: Seq<Option<String>>, file_size: nat, n: nat) -> int
    decreases n,
{
    if n == 0 {
        0
    } else {
        done_bytes(completed, file_size, (n - 1) as nat) + if completed[n - 1] is Some {
            part_len(file_size, n)
        } else {
            0
        }
    }
}

/// Sum of the sizes of a list of tasks.
pub open spec fn tasks_bytes(tasks: Seq<PartTask>) -> int
    decreases tasks.len(),
{
    if tasks.len() == 0 {
        0
    } else {
        tasks_bytes(tasks.drop_last()) + tasks.last().size
    }
}

/// Every completed entry starts inside the file.
pub open spec fn completed_in_file(completed: Seq<Option<String>>, file_size: nat) -> bool {
    forall|i: int| 0 <= i < completed.len() && (#[trigger] completed[i]) is Some ==> i * PART_SIZE <= file_size
}

proof fn lemma_done_bytes_bound(completed: Seq<Option<String>>, file_size: nat, n: nat)
    requires
        n <= completed.len(),
        completed_in_file(completed, file_size),
    ensures
        0 <= done_bytes(completed, file_size, n),
        done_bytes(completed, file_size, n) <= if n * PART_SIZE <= file_size { n * PART_SIZE } else {
            file_size as int
        },
    decreases n,
{
    if n > 0 {
        lemma_done_bytes_bound(completed, file_size, (n - 1) as nat);
        if completed[n - 1] is Some {
            assert((n - 1) * PART_SIZE <= file_size);
        }
    }
}

/// Bytes already uploaded according to the completed entries (the progress
/// reported when an upload resumes).
pub fn resumed_bytes(completed: &Vec<Option<String>>, file_size: u64) -> (r: u64)
    requires
        completed_in_file(completed@, file_size as nat),
    ensures
        r == done_bytes(completed@, file_size as nat, completed@.len()),
{
    let mut sum: u64 = 0;
    let mut i: usize = 0;
    while i < completed.len()
        invariant
            i <= completed.len(),
            completed_in_file(completed@, file_size as nat),
            sum == done_bytes(completed@, file_size as nat, i as nat),
        decreases completed.len() - i,
    {
        proof {
            lemma_done_bytes_bound(completed@, file_size as nat, (i + 1) as nat);
        }
        if completed[i].is_some() {
            assert(completed@[i as int] is Some);
            assert(i * PART_SIZE <= file_size);
            let offset = i as u64 * PART_SIZE;
            let rest = file_size - offset;
            let len = if rest < PART_SIZE { rest } else { PART_SIZE };
            sum = sum + len;
        }
        i = i + 1;
    }
    sum
}

/// The parts among `1..=total_parts(file_size)` that still need uploading.
pub fn pending_parts(completed: &Vec<Option<String>>, file_size: u64) -> (r: Vec<PartTask>)
    requires
        completed@.len() >= part_count(file_size as nat) % 0x1_0000_0000,
    ensures
        r@ == pending_tasks(completed@, file_size as nat, part_count(file_size as nat) % 0x1_0000_0000),
{
    let total = total_parts(file_size) as u64;
    let mut tasks: Vec<PartTask> = Vec::new();
    let mut pn: u64 = 1;
    while pn <= total
        invariant
            1 <= pn <= total + 1,
            total == part_count(file_size as nat) % 0x1_0000_0000,
            completed@.len() >= total,
            tasks@ == pending_tasks(completed@, file_size as nat, (pn - 1) as nat),
        decreases total + 1 - pn,
    {
        if completed[(pn - 1) as usize].is_none() {
            assert((pn - 1) * PART_SIZE < file_size) by {
                assert(pn <= part_count(file_size as nat));
            }
            let offset = (pn - 1) * PART_SIZE;
            let rest = file_size - offset;
            let size = if rest < PART_SIZE { rest } else { PART_SIZE };
            tasks.push(PartTask { part_number: pn as u32, offset, size });
        }
        pn = pn + 1;
    }
    tasks
}

} // verus!

verus! {

proof fn lemma_tasks_bytes_push(tasks: Seq<PartTask>, t: PartTask)
    ensures
        tasks_bytes(tasks.push(t)) == tasks_bytes(tasks) + t.size,
{
    assert(tasks.push(t).drop_last() =~= tasks);
}

proof fn lemma_resume_split(completed: Seq<Option<String>>, file_size: nat, n: nat)
    requires
        n <= completed.len(),
        n <= part_count(file_size),
    ensures
        done_bytes(completed, file_size, n) + tasks_bytes(pending_tasks(completed, file_size, n))
            == parts_total(file_size, n),
    decreases n,
{
    if n > 0 {
        lemma_resume_split(completed, file_size, (n - 1) as nat);
        assert((n - 1) * PART_SIZE < file_size) by {
            assert(n <= part_count(file_size));
        }
        if completed[n - 1] is None {
            lemma_tasks_bytes_push(
                pending_tasks(completed, file_size, (n - 1) as nat),
                part_task(file_size, n),
            );
        }
    }
}

/// Resuming neither loses nor repeats bytes: the bytes of the parts that
/// already have an ETag plus the bytes of the parts still pending add up to
/// the whole file.
pub proof fn lemma_resume_covers_file(completed: Seq<Option<String>>, file_size: nat)
    requires
        completed.len() == part_count(file_size),
    ensures
        done_bytes(completed, file_size, completed.len()) + tasks_bytes(
            pending_tasks(completed, file_size, part_count(file_size)),
        ) == file_size,
{
    lemma_resume_split(completed, file_size, part_count(file_size));
    lemma_parts_cover_file(file_size);
}

/// Stores the ETag of part `part_number` (counted from 1).
pub fn record_part(completed: &mut Vec<Option<String>>, part_number: u32, etag: String)
    requires
        1 <= part_number <= old(completed)@.len(),
    ensures
        final(completed)@ == old(completed)@.update(part_number - 1, Some(etag)),
{
    completed.set((part_number - 1) as usize, Some(etag));
}

/// Number of entries that have an ETag.
pub open spec fn completed_count(completed: Seq<Option<String>>) -> nat
    decreases completed.len(),
{
    if completed.len() == 0 {
        0
    } else {
        completed_count(completed.drop_last()) + if completed.last() is Some {
            1nat
        } else {
            0nat
        }
    }
}

/// Counts the parts that have an ETag.
pub fn count_completed(completed: &Vec<Option<String>>) -> (r: usize)
    ensures
        r == completed_count(completed@),
{
    let mut n: usize = 0;
    let mut i: usize = 0;
    while i < completed.len()
        invariant
            i <= completed.len(),
            n <= i,
            n == completed_count(completed@.take(i as int)),
        decreases completed.len() - i,
    {
        assert(completed@.take(i + 1).drop_last() =~= completed@.take(i as int));
        if completed[i].is_some() {
            n = n + 1;
        }
        i = i + 1;
    }
    assert(completed@.take(completed.len() as int) =~= completed@);
    n
}

/// The ETags present, in part order (`flatten`).
pub open spec fn present_etags(completed: Seq<Option<String>>) -> Seq<String>
    decreases completed.len(),
{
    if completed.len() == 0 {
        Seq::empty()
    } else {
        let before = present_etags(completed.drop_last());
        match completed.last() {
            Some(e) => before.push(e),
            None => before,
        }
    }
}

/// The ETags of the completed parts, in part order.
pub fn collect_etags(completed: &Vec<Option<String>>) -> (r: Vec<String>)
    ensures
        r@ == present_etags(completed@),
{
    let mut out: Vec<String> = Vec::new();
    let mut i: usize = 0;
    while i < completed.len()
        invariant
            i <= completed.len(),
            out@ == present_etags(completed@.take(i as int)),
        decreases completed.len() - i,
    {
        assert(completed@.take(i + 1).drop_last() =~= completed@.take(i as int));
        match &completed[i] {
            Some(e) => out.push(e.clone()),
            None => {},
        }
        i = i + 1;
    }
    assert(completed@.take(completed.len() as int) =~= completed@);
    out
}

/// Once every part has an ETag, the ETags come out one per part and in part
/// order, so that position `i` of the list sent to complete the upload
/// belongs to part `i + 1`.
pub proof fn lemma_all_parts_etags_in_order(completed: Seq<Option<String>>)
    requires
        forall|i: int| 0 <= i < completed.len() ==> (#[trigger] completed[i]) is Some,
    ensures
        present_etags(completed).len() == completed.len(),
        forall|i: int|
            0 <= i < completed.len() ==> Some(#[trigger] present_etags(completed)[i]) == completed[i],
        completed_count(completed) == completed.len(),
    decreases completed.len(),
{
    if completed.len() > 0 {
        let init = completed.drop_last();
        assert forall|i: int| 0 <= i < init.len() implies (#[trigger] init[i]) is Some by {
            assert(init[i] == completed[i]);
        }
        lemma_all_parts_etags_in_order(init);
        assert(completed.last() is Some);
        assert forall|i: int| 0 <= i < completed.len() implies Some(
            #[trigger] present_etags(completed)[i],
        ) == completed[i] by {
            if i < init.len() {
                assert(init[i] == completed[i]);
            }
        }
    }
}

/// Seconds to wait after a failed attempt before the next one: `2^(attempt-1)`
/// seconds, and none after the last attempt.
pub fn retry_delay_secs(attempt: u32) -> (r: Option<u64>)
    requires
        1 <= attempt <= MAX_PART_RETRIES,
    ensures
        attempt == MAX_PART_RETRIES ==> r is None,
        attempt == 1 ==> r == Some(1u64),
        attempt == 2 ==> r == Some(2u64),
{
    if attempt == MAX_PART_RETRIES {
        None
    } else if attempt == 1 {
        Some(1)
    } else {
        Some(2)
    }
}

} // verus!

verus! {

/// Saved state of an interrupted multipart upload.
#[derive(Clone, Debug)]
pub struct UploadCheckpoint {
    pub upload_id: String,
    pub remote_path: String,
    pub local_path: String,
    pub file_size: u64,
    pub total_parts: u32,
    /// `completed_parts[n - 1]` holds the ETag of part `n` once it is done.
    pub completed_parts: Vec<Option<String>>,
}

impl UploadCheckpoint {
    /// A checkpoint resumes an upload only for the same remote path, the same
    /// local path and the same file size.
    pub open spec fn resumable_for(&self, remote_path: Seq<char>, local_path: Seq<char>, file_size: u64) -> bool {
        &&& self.remote_path@ == remote_path
        &&& self.local_path@ == local_path
        &&& self.file_size == file_size
    }

    /// Whether this checkpoint belongs to the given upload.
    pub fn can_resume(&self, remote_path: &str, local_path: &str, file_size: u64) -> (r: bool)
        ensures
            r == self.resumable_for(remote_path@, local_path@, file_size),
    {
        let same_remote = str_eq(self.remote_path.as_str(), remote_path);
        let same_local = str_eq(self.local_path.as_str(), local_path);
        same_remote && same_local && self.file_size == file_size
    }
}

/// How a multipart upload begins.
pub enum ResumePlan {
    /// Continue the saved upload: its id, the ETags known so far, and the
    /// bytes they account for.
    Resume { upload_id: String, completed: Vec<Option<String>>, resumed: u64 },
    /// A checkpoint exists for another upload: abort that upload on the
    /// server, then start a new one.
    Restart { stale_upload_id: String },
    /// No checkpoint: start a new upload.
    Fresh,
}

/// Decides from the checkpoint found (if any) how the upload begins.
pub fn plan_resume(checkpoint: Option<UploadCheckpoint>, remote_path: &str, local_path: &str, file_size: u64) -> (r: ResumePlan)
    requires
        checkpoint matches Some(cp) ==> (cp.resumable_for(remote_path@, local_path@, file_size)
            ==> completed_in_file(cp.completed_parts@, file_size as nat)),
    ensures
        match checkpoint {
            Some(cp) => if cp.resumable_for(remote_path@, local_path@, file_size) {
                r == ResumePlan::Resume {
                    upload_id: cp.upload_id,
                    completed: cp.completed_parts,
                    resumed: done_bytes(cp.completed_parts@, file_size as nat, cp.completed_parts@.len()) as u64,
                }
            } else {
                r == ResumePlan::Restart { stale_upload_id: cp.upload_id }
            },
            None => r is Fresh,
        },
{
    match checkpoint {
        Some(cp) => {
            if cp.can_resume(remote_path, local_path, file_size) {
                let resumed = resumed_bytes(&cp.completed_parts, file_size);
                ResumePlan::Resume { upload_id: cp.upload_id, completed: cp.completed_parts, resumed }
            } else {
                ResumePlan::Restart { stale_upload_id: cp.upload_id }
            }
        },
        None => ResumePlan::Fresh,
    }
}

/// The completion table of a new upload: one empty entry per part.
pub fn fresh_completed(file_size: u64) -> (r: Vec<Option<String>>)
    ensures
        r@.len() == part_count(file_size as nat) % 0x1_0000_0000,
        forall|i: int| 0 <= i < r@.len() ==> (#[trigger] r@[i]) is None,
{
    let total = total_parts(file_size);
    let mut v: Vec<Option<String>> = Vec::new();
    let mut i: u32 = 0;
    while i < total
        invariant
            i <= total,
            v@.len() == i,
            forall|j: int| 0 <= j < v@.len() ==> (#[trigger] v@[j]) is None,
        decreases total - i,
    {
        v.push(None);
        i = i + 1;
    }
    v
}

/// Message for an upload in which some parts failed:
/// `部分分片上传失败 ({done}/{total} 已完成), 再次执行命令可从断点恢复`.
pub open spec fn failure_message(done: nat, total: nat) -> Seq<char> {
    "部分分片上传失败 ("@ + decimal(done) + "/"@ + decimal(total) + " 已完成), 再次执行命令可从断点恢复"@
}

/// The error text reported when parts are still missing after a pass.
pub fn multipart_failure_message(completed: &Vec<Option<String>>, total: u32) -> (r: String)
    ensures
        r@ == failure_message(completed_count(completed@), total as nat),
{
    let done = count_completed(completed);
    let mut out = chars_of("部分分片上传失败 (");
    let d = decimal_chars(done as u64);
    extend_chars(&mut out, &d);
    extend_str(&mut out, "/");
    let t = decimal_chars(total as u64);
    extend_chars(&mut out, &t);
    extend_str(&mut out, " 已完成), 再次执行命令可从断点恢复");
    string_of(&out)
}

} // verus!

verus! {

/// Every part among `1..=n` is either completed or pending, never both:
/// part `pn` is pending exactly when it has no ETag, and then with its own
/// offset and length; pending parts come in increasing order.
pub proof fn lemma_pending_are_the_missing_parts(completed: Seq<Option<String>>, file_size: nat, n: nat)
    requires
        n <= completed.len(),
        n < 0x1_0000_0000,
    ensures
        forall|k: int|
            0 <= k < pending_tasks(completed, file_size, n).len() ==> {
                let t = #[trigger] pending_tasks(completed, file_size, n)[k];
                &&& 1 <= t.part_number <= n
                &&& completed[t.part_number - 1] is None
                &&& t == part_task(file_size, t.part_number as nat)
            },
        forall|pn: int|
            1 <= pn <= n && (#[trigger] completed[pn - 1]) is None ==> exists|k: int|
                0 <= k < pending_tasks(completed, file_size, n).len() && pending_tasks(
                    completed,
                    file_size,
                    n,
                )[k].part_number == pn,
        forall|a: int, b: int|
            0 <= a < b < pending_tasks(completed, file_size, n).len() ==> pending_tasks(completed, file_size, n)[a].part_number
                < pending_tasks(completed, file_size, n)[b].part_number,
    decreases n,
{
    if n > 0 {
        lemma_pending_are_the_missing_parts(completed, file_size, (n - 1) as nat);
        let before = pending_tasks(completed, file_size, (n - 1) as nat);
        let now = pending_tasks(completed, file_size, n);
        if completed[n - 1] is None {
            assert(now == before.push(part_task(file_size, n)));
            assert(part_task(file_size, n).part_number == n);
            assert forall|k: int| 0 <= k < now.len() implies {
                let t = #[trigger] now[k];
                &&& 1 <= t.part_number <= n
                &&& completed[t.part_number - 1] is None
                &&& t == part_task(file_size, t.part_number as nat)
            } by {
                if k < before.len() {
                    assert(now[k] == before[k]);
                }
            }
            assert forall|pn: int| 1 <= pn <= n && (#[trigger] completed[pn - 1]) is None implies exists|k: int|
                0 <= k < now.len() && now[k].part_number == pn by {
                if pn == n {
                    assert(now[before.len() as int].part_number == pn);
                } else {
                    let k = choose|k: int| 0 <= k < before.len() && before[k].part_number == pn;
                    assert(now[k] == before[k]);
                }
            }
            assert forall|a: int, b: int| 0 <= a < b < now.len() implies now[a].part_number < now[b].part_number by {
                if b < before.len() {
                    assert(now[a] == before[a] && now[b] == before[b]);
                } else {
                    assert(now[a] == before[a]);
                }
            }
        } else {
            assert forall|pn: int| 1 <= pn <= n && (#[trigger] completed[pn - 1]) is None implies exists|k: int|
                0 <= k < now.len() && now[k].part_number == pn by {
                let k = choose|k: int| 0 <= k < before.len() && before[k].part_number == pn;
            }
        }
    }
}

} // verus!
